//! The decisions of a sweep: which addresses are probed, in what order results
//! are shown, and how a run ends.

use crate::http_common::{bare_chars, bare_host};
use crate::model::dns::{record_address, DnsRecordModel};
use crate::model::{DnsObservation, DnsRecord};
use crate::net::{parse_ip, parse_ip_chars, IpAddr, SocketAddr};
use crate::text::{first_seen, glue3, string_of};
use vstd::prelude::*;

verus! {

// --- addresses ---------------------------------------------------------------------------

/// The address a host is, when it is a literal (brackets ignored).
pub fn literal_address(host: &str) -> (r: Option<IpAddr>)
    ensures
        r == parse_ip(bare_host(host@)),
{
    let bare = bare_chars(host);
    parse_ip_chars(bare.as_slice())
}

/// The addresses among records, in order.
pub open spec fn record_addresses(records: Seq<DnsRecord>) -> Seq<IpAddr>
    decreases records.len(),
{
    if records.len() == 0 {
        Seq::empty()
    } else {
        let front = record_addresses(records.drop_last());
        match record_address(records.last().deep_view()) {
            Some(ip) => front.push(ip),
            None => front,
        }
    }
}

/// The addresses in the observations that did not fail, in order.
pub open spec fn addresses_in(s: Seq<DnsObservation>) -> Seq<IpAddr>
    decreases s.len(),
{
    if s.len() == 0 {
        Seq::empty()
    } else {
        let front = addresses_in(s.drop_last());
        if s.last().error is None {
            front + record_addresses(s.last().records@)
        } else {
            front
        }
    }
}

/// The addresses in the observations that did not fail.
fn list_addresses(s: &[DnsObservation]) -> (out: Vec<IpAddr>)
    ensures
        out@ == addresses_in(s@),
{
    let mut out: Vec<IpAddr> = Vec::new();
    for i in 0..s.len()
        invariant
            out@ == addresses_in(s@.take(i as int)),
    {
        assert(s@.take(i as int + 1).drop_last() =~= s@.take(i as int));
        let ghost front = out@;
        if s[i].error.is_none() {
            let records = &s[i].records;
            assert(front + record_addresses(records@.take(0)) =~= front);
            for j in 0..records.len()
                invariant
                    out@ == front + record_addresses(records@.take(j as int)),
            {
                let ghost found = record_addresses(records@.take(j as int));
                assert(records@.take(j as int + 1).drop_last() =~= records@.take(j as int));
                match records[j].address() {
                    Some(ip) => {
                        out.push(ip);
                        assert(out@ =~= front + found.push(ip));
                    },
                    None => {},
                }
            }
            assert(records@.take(records@.len() as int) =~= records@);
        }
    }
    assert(s@.take(s@.len() as int) =~= s@);
    out
}

/// The distinct addresses, in the order in which they first occur.
pub fn distinct_addresses(v: &[IpAddr]) -> (out: Vec<IpAddr>)
    ensures
        out@ == first_seen(v@),
{
    let mut out: Vec<IpAddr> = Vec::new();
    for i in 0..v.len()
        invariant
            out@ == first_seen(v@.take(i as int)),
    {
        assert(v@.take(i as int + 1).drop_last() =~= v@.take(i as int));
        let mut known = false;
        for j in 0..out.len()
            invariant
                i < v@.len(),
                known == exists|k: int| 0 <= k < j && #[trigger] out@[k] == v@[i as int],
        {
            if out[j] == v[i] {
                assert(out@[j as int] == v@[i as int]);
                known = true;
            }
        }
        if !known {
            out.push(v[i]);
        }
    }
    assert(v@.take(v@.len() as int) =~= v@);
    out
}

/// Something is first seen where anything is.
proof fn lemma_first_seen_nonempty<A>(s: Seq<A>)
    ensures
        first_seen(s).len() == 0 <==> s.len() == 0,
    decreases s.len(),
{
    if s.len() > 0 {
        lemma_first_seen_nonempty(s.drop_last());
        let front = first_seen(s.drop_last());
        if front.contains(s.last()) {
            assert(front.len() > 0);
        }
    }
}

/// What a hostname resolves to, from the A and AAAA observations of its
/// resolvers: the addresses without repetition, in order, or the complaint
/// that there are none.
pub fn resolved_addresses(host: &str, observations: &[DnsObservation]) -> (r: Result<Vec<IpAddr>, String>)
    ensures
        r is Ok == (addresses_in(observations@).len() > 0),
        r matches Ok(v) ==> v@ == first_seen(addresses_in(observations@)) && v@.len() > 0,
        r matches Err(e) ==> e@ == "hostname "@ + bare_host(host@)
            + " did not resolve to any address via the configured resolvers"@,
{
    let all = list_addresses(observations);
    if all.len() == 0 {
        let bare = string_of(bare_chars(host).as_slice());
        return Err(
            glue3("hostname ", bare.as_str(), " did not resolve to any address via the configured resolvers"),
        );
    }
    proof {
        lemma_first_seen_nonempty(all@);
    }
    Ok(distinct_addresses(all.as_slice()))
}

/// Whether an address is probed: `--ipv4` keeps the IPv4 addresses, `--ipv6`
/// the IPv6 ones, and neither keeps all.
pub open spec fn is_probed(ip: IpAddr, ipv4_only: bool, ipv6_only: bool) -> bool {
    if ipv4_only {
        ip is V4
    } else if ipv6_only {
        ip is V6
    } else {
        true
    }
}

/// The destinations of a sweep over addresses.
pub open spec fn destinations(addrs: Seq<IpAddr>, ipv4_only: bool, ipv6_only: bool, port: u16) -> Seq<SocketAddr>
    decreases addrs.len(),
{
    if addrs.len() == 0 {
        Seq::empty()
    } else {
        let front = destinations(addrs.drop_last(), ipv4_only, ipv6_only, port);
        if is_probed(addrs.last(), ipv4_only, ipv6_only) {
            front.push(SocketAddr { ip: addrs.last(), port, scope_id: 0 })
        } else {
            front
        }
    }
}

/// The destinations to probe.
pub fn probe_destinations(addrs: &[IpAddr], ipv4_only: bool, ipv6_only: bool, port: u16) -> (out: Vec<SocketAddr>)
    ensures
        out@ == destinations(addrs@, ipv4_only, ipv6_only, port),
{
    let mut out: Vec<SocketAddr> = Vec::new();
    for i in 0..addrs.len()
        invariant
            out@ == destinations(addrs@.take(i as int), ipv4_only, ipv6_only, port),
    {
        assert(addrs@.take(i as int + 1).drop_last() =~= addrs@.take(i as int));
        let ip = addrs[i];
        let keep = if ipv4_only {
            ip.is_ipv4()
        } else if ipv6_only {
            ip.is_ipv6()
        } else {
            true
        };
        if keep {
            out.push(SocketAddr::new(ip, port));
        }
    }
    assert(addrs@.take(addrs@.len() as int) =~= addrs@);
    out
}

/// The name presented to a destination: the `--sni` override, or the host.
pub fn presented_name(sni: Option<&str>, host: &str) -> (out: String)
    ensures
        out@ == (match sni {
            Some(s) => s@,
            None => host@,
        }),
{
    match sni {
        Some(s) => s.to_owned(),
        None => host.to_owned(),
    }
}

// --- order -------------------------------------------------------------------------------

/// The numbers by which destinations are ordered: the family, the address,
/// the port and the scope.
pub open spec fn order_key(a: SocketAddr) -> Seq<u32> {
    match a.ip {
        IpAddr::V4(v4) => seq![0u32, v4.a as u32, v4.b as u32, v4.c as u32, v4.d as u32, a.port as u32, a.scope_id],
        IpAddr::V6(v6) => seq![
            1u32,
            v6.g0 as u32,
            v6.g1 as u32,
            v6.g2 as u32,
            v6.g3 as u32,
            v6.g4 as u32,
            v6.g5 as u32,
            v6.g6 as u32,
            v6.g7 as u32,
            a.port as u32,
            a.scope_id,
        ],
    }
}

/// Whether one sequence of numbers comes before another, the first difference
/// deciding.
pub open spec fn precedes(a: Seq<u32>, b: Seq<u32>) -> bool
    decreases a.len(),
{
    if b.len() == 0 {
        false
    } else if a.len() == 0 {
        true
    } else if a[0] != b[0] {
        a[0] < b[0]
    } else {
        precedes(a.skip(1), b.skip(1))
    }
}

/// The numbers by which destinations are ordered.
fn key_of(a: SocketAddr) -> (out: Vec<u32>)
    ensures
        out@ == order_key(a),
{
    let out = match a.ip {
        IpAddr::V4(v4) => vec![
            0u32,
            v4.a as u32,
            v4.b as u32,
            v4.c as u32,
            v4.d as u32,
            a.port as u32,
            a.scope_id,
        ],
        IpAddr::V6(v6) => vec![
            1u32,
            v6.g0 as u32,
            v6.g1 as u32,
            v6.g2 as u32,
            v6.g3 as u32,
            v6.g4 as u32,
            v6.g5 as u32,
            v6.g6 as u32,
            v6.g7 as u32,
            a.port as u32,
            a.scope_id,
        ],
    };
    assert(out@ =~= order_key(a));
    out
}

/// Whether one destination comes before another.
pub fn comes_before(a: SocketAddr, b: SocketAddr) -> (r: bool)
    ensures
        r == precedes(order_key(a), order_key(b)),
{
    let x = key_of(a);
    let y = key_of(b);
    let mut i: usize = 0;
    assert(x@.skip(0) =~= x@);
    assert(y@.skip(0) =~= y@);
    while i < x.len() && i < y.len()
        invariant
            x@ == order_key(a),
            y@ == order_key(b),
            i <= x@.len(),
            i <= y@.len(),
            precedes(x@, y@) == precedes(x@.skip(i as int), y@.skip(i as int)),
        decreases x.len() - i,
    {
        assert(x@.skip(i as int).skip(1) =~= x@.skip(i as int + 1));
        assert(y@.skip(i as int).skip(1) =~= y@.skip(i as int + 1));
        if x[i] != y[i] {
            return x[i] < y[i];
        }
        i = i + 1;
    }
    i < y.len()
}

/// The order is transitive.
proof fn lemma_precedes_transitive(a: Seq<u32>, b: Seq<u32>, c: Seq<u32>)
    requires
        !precedes(b, a),
        !precedes(c, b),
    ensures
        !precedes(c, a),
        precedes(b, c) || precedes(a, b) ==> precedes(a, c),
    decreases a.len() + b.len() + c.len(),
{
    if a.len() > 0 && b.len() > 0 && c.len() > 0 && a[0] == b[0] && b[0] == c[0] {
        lemma_precedes_transitive(a.skip(1), b.skip(1), c.skip(1));
    }
}

/// Whether position `i` of a result belongs before position `j`: its
/// destination comes before, or they are equal and it was there first.
pub open spec fn in_order(keys: Seq<SocketAddr>, i: usize, j: usize) -> bool {
    let a = order_key(keys[i as int]);
    let b = order_key(keys[j as int]);
    precedes(a, b) || (!precedes(b, a) && i < j)
}

/// Whether positions are an ordering of the first `n` keys.
pub open spec fn orders(keys: Seq<SocketAddr>, out: Seq<usize>, n: int) -> bool {
    &&& out.len() == n
    &&& forall|i: int| 0 <= i < out.len() ==> (#[trigger] out[i]) < n
    &&& forall|i: int, j: int| 0 <= i < j < out.len() ==> in_order(keys, #[trigger] out[i], #[trigger] out[j])
}

/// Earlier positions of one destination stay in order.
proof fn lemma_in_order_transitive(keys: Seq<SocketAddr>, i: usize, j: usize, k: usize)
    requires
        in_order(keys, i, j),
        in_order(keys, j, k),
    ensures
        in_order(keys, i, k),
{
    let a = order_key(keys[i as int]);
    let b = order_key(keys[j as int]);
    let c = order_key(keys[k as int]);
    if precedes(a, b) {
        lemma_precedes_asymmetric(a, b);
    }
    if precedes(b, c) {
        lemma_precedes_asymmetric(b, c);
    }
    lemma_precedes_transitive(a, b, c);
}

/// The order is asymmetric.
proof fn lemma_precedes_asymmetric(a: Seq<u32>, b: Seq<u32>)
    requires
        precedes(a, b),
    ensures
        !precedes(b, a),
    decreases a.len(),
{
    if a.len() > 0 && b.len() > 0 && a[0] == b[0] {
        lemma_precedes_asymmetric(a.skip(1), b.skip(1));
    }
}

/// Put the next position where it belongs.
fn place(keys: &[SocketAddr], out: &mut Vec<usize>, n: usize)
    requires
        n < keys@.len(),
        orders(keys@, old(out)@, n as int),
    ensures
        orders(keys@, final(out)@, n + 1),
{
    let ghost before = out@;
    let mut at: usize = out.len();
    while at > 0 && comes_before(keys[n], keys[out[at - 1]])
        invariant
            n < keys@.len(),
            at <= out@.len(),
            out@ == before,
            orders(keys@, before, n as int),
            forall|j: int| at <= j < before.len() ==> precedes(
                order_key(keys@[n as int]),
                order_key(keys@[#[trigger] before[j] as int]),
            ),
        decreases at,
    {
        at = at - 1;
    }
    out.insert(at, n);
    proof {
        let result = out@;
        assert(result =~= before.insert(at as int, n));
        assert forall|i: int| 0 <= i < result.len() implies (#[trigger] result[i]) < n + 1 by {
            if i < at {
                assert(before[i] < n);
            } else if i > at {
                assert(before[i - 1] < n);
            }
        }
        assert forall|i: int, j: int| 0 <= i < j < result.len() implies in_order(
            keys@,
            #[trigger] result[i],
            #[trigger] result[j],
        ) by {
            if j < at {
                assert(in_order(keys@, before[i], before[j]));
            } else if j == at {
                assert(before[i] < n);
                if i < at - 1 {
                    assert(in_order(keys@, before[i], before[at - 1]));
                    assert(in_order(keys@, before[at - 1], n));
                    lemma_in_order_transitive(keys@, before[i], before[at - 1], n);
                }
            } else if i < at {
                assert(in_order(keys@, before[i], before[j - 1]));
            } else if i == at {
                assert(precedes(order_key(keys@[n as int]), order_key(keys@[before[j - 1] as int])));
            } else {
                assert(in_order(keys@, before[i - 1], before[j - 1]));
            }
        }
    }
}

/// The order in which the results of destinations are shown: ascending by
/// destination, equal ones as they came. Each position occurs once.
pub fn destination_order(keys: &[SocketAddr]) -> (out: Vec<usize>)
    ensures
        orders(keys@, out@, keys@.len() as int),
{
    let mut out: Vec<usize> = Vec::new();
    for n in 0..keys.len()
        invariant
            orders(keys@, out@, n as int),
    {
        place(keys, &mut out, n);
    }
    out
}

/// An ordering holds every position exactly once.
pub proof fn lemma_order_is_a_permutation(keys: Seq<SocketAddr>, out: Seq<usize>)
    requires
        orders(keys, out, keys.len() as int),
        keys.len() <= usize::MAX,
    ensures
        out.no_duplicates(),
        forall|i: usize| i < keys.len() ==> #[trigger] out.contains(i),
{
    assert forall|i: int, j: int| 0 <= i < out.len() && 0 <= j < out.len() && i != j implies out[i] != out[j] by {
        let (a, b) = if i < j {
            (i, j)
        } else {
            (j, i)
        };
        assert(in_order(keys, out[a], out[b]));
        if out[a] == out[b] {
            let k = order_key(keys[out[a] as int]);
            if precedes(k, k) {
                lemma_precedes_asymmetric(k, k);
            }
        }
    }
    lemma_all_positions(out, keys.len());
}

/// As many distinct positions as there are fill them all.
proof fn lemma_all_positions(out: Seq<usize>, n: nat)
    requires
        out.no_duplicates(),
        out.len() == n,
        n <= usize::MAX,
        forall|i: int| 0 <= i < out.len() ==> (#[trigger] out[i]) < n,
    ensures
        forall|i: usize| i < n ==> #[trigger] out.contains(i),
    decreases n,
{
    if n > 0 {
        let top = (n - 1) as usize;
        if !out.contains(top) {
            lemma_crowded(out, (n - 1) as nat);
        }
        let k = choose|k: int| 0 <= k < out.len() && out[k] == top;
        let rest = out.remove(k);
        assert forall|i: int| 0 <= i < rest.len() implies (#[trigger] rest[i]) < n - 1 by {
            if i < k {
                assert(rest[i] == out[i]);
                assert(out[i] != out[k]);
            } else {
                assert(rest[i] == out[i + 1]);
                assert(out[i + 1] != out[k]);
            }
        }
        assert(rest.no_duplicates()) by {
            assert forall|i: int, j: int| 0 <= i < rest.len() && 0 <= j < rest.len() && i != j implies rest[i]
                != rest[j] by {
                let a = if i < k {
                    i
                } else {
                    i + 1
                };
                let b = if j < k {
                    j
                } else {
                    j + 1
                };
                assert(rest[i] == out[a] && rest[j] == out[b]);
            }
        }
        lemma_all_positions(rest, (n - 1) as nat);
        assert forall|i: usize| i < n implies #[trigger] out.contains(i) by {
            if i < n - 1 {
                assert(rest.contains(i));
                let j = choose|j: int| 0 <= j < rest.len() && rest[j] == i;
                if j < k {
                    assert(out[j] == i);
                } else {
                    assert(out[j + 1] == i);
                }
            }
        }
    }
}

/// Distinct positions below a bound are no more than the bound.
proof fn lemma_crowded(out: Seq<usize>, n: nat)
    requires
        out.no_duplicates(),
        forall|i: int| 0 <= i < out.len() ==> (#[trigger] out[i]) <= n && out[i] != n,
        n <= usize::MAX,
    ensures
        out.len() <= n,
    decreases n,
{
    if out.len() > 0 {
        assert(out[0] < n);
        let top = (n - 1) as usize;
        if out.contains(top) {
            let k = choose|k: int| 0 <= k < out.len() && out[k] == top;
            let rest = out.remove(k);
            assert forall|i: int| 0 <= i < rest.len() implies (#[trigger] rest[i]) <= n - 1 && rest[i] != n - 1 by {
                if i < k {
                    assert(rest[i] == out[i]);
                    assert(out[i] != out[k]);
                } else {
                    assert(rest[i] == out[i + 1]);
                    assert(out[i + 1] != out[k]);
                }
            }
            assert(rest.no_duplicates()) by {
                assert forall|i: int, j: int| 0 <= i < rest.len() && 0 <= j < rest.len() && i != j implies rest[i]
                    != rest[j] by {
                    let a = if i < k {
                        i
                    } else {
                        i + 1
                    };
                    let b = if j < k {
                        j
                    } else {
                        j + 1
                    };
                    assert(rest[i] == out[a] && rest[j] == out[b]);
                }
            }
            lemma_crowded(rest, (n - 1) as nat);
        } else {
            assert forall|i: int| 0 <= i < out.len() implies (#[trigger] out[i]) <= n - 1 && out[i] != n - 1 by {
                if out[i] == n - 1 {
                    assert(out.contains(top));
                }
            }
            lemma_crowded(out, (n - 1) as nat);
        }
    }
}

// --- laws --------------------------------------------------------------------------------

/// The addresses that lookups found are those of the address records of the
/// lookups without an error.
pub proof fn lemma_found_addresses(s: Seq<DnsObservation>, ip: IpAddr)
    ensures
        addresses_in(s).contains(ip) <==> exists|i: int, j: int|
            #![trigger s[i].records@[j]]
            0 <= i < s.len() && s[i].error is None && 0 <= j < s[i].records@.len() && (
            match s[i].records@[j].deep_view() {
                DnsRecordModel::A(v4) => ip == IpAddr::V4(v4),
                DnsRecordModel::Aaaa(v6) => ip == IpAddr::V6(v6),
                _ => false,
            }),
    decreases s.len(),
{
    if s.len() > 0 {
        let front = s.drop_last();
        let last = s.len() - 1;
        let before = addresses_in(front);
        let found = record_addresses(s[last].records@);
        lemma_found_addresses(front, ip);
        lemma_record_addresses(s[last].records@, ip);
        assert forall|i: int| 0 <= i < last implies front[i] == #[trigger] s[i] by {}
        if addresses_in(s).contains(ip) {
            let k = choose|k: int| 0 <= k < addresses_in(s).len() && addresses_in(s)[k] == ip;
            if k < before.len() {
                assert(before[k] == ip);
                let (i, j) = choose|i: int, j: int|
                    #![trigger front[i].records@[j]]
                    0 <= i < front.len() && front[i].error is None && 0 <= j < front[i].records@.len() && (
                    match front[i].records@[j].deep_view() {
                        DnsRecordModel::A(v4) => ip == IpAddr::V4(v4),
                        DnsRecordModel::Aaaa(v6) => ip == IpAddr::V6(v6),
                        _ => false,
                    });
                assert(s[i].records@[j] == front[i].records@[j]);
            } else {
                assert(found[k - before.len()] == ip);
                assert(found.contains(ip));
                let j = choose|j: int|
                    0 <= j < s[last].records@.len() && record_address((#[trigger] s[last].records@[j]).deep_view())
                        == Some(ip);
                assert(s[last].records@[j] == s[last].records@[j]);
            }
        }
        if exists|i: int, j: int|
            #![trigger s[i].records@[j]]
            0 <= i < s.len() && s[i].error is None && 0 <= j < s[i].records@.len() && (
            match s[i].records@[j].deep_view() {
                DnsRecordModel::A(v4) => ip == IpAddr::V4(v4),
                DnsRecordModel::Aaaa(v6) => ip == IpAddr::V6(v6),
                _ => false,
            }) {
            let (i, j) = choose|i: int, j: int|
                #![trigger s[i].records@[j]]
                0 <= i < s.len() && s[i].error is None && 0 <= j < s[i].records@.len() && (
                match s[i].records@[j].deep_view() {
                    DnsRecordModel::A(v4) => ip == IpAddr::V4(v4),
                    DnsRecordModel::Aaaa(v6) => ip == IpAddr::V6(v6),
                    _ => false,
                });
            if i < last {
                assert(front[i].records@[j] == s[i].records@[j]);
                let k = choose|k: int| 0 <= k < before.len() && before[k] == ip;
                assert(addresses_in(s)[k] == ip);
            } else {
                assert(record_address(s[last].records@[j].deep_view()) == Some(ip));
                let k = choose|k: int| 0 <= k < found.len() && found[k] == ip;
                assert(addresses_in(s)[before.len() + k] == ip);
            }
        }
    }
}

/// The addresses of records.
proof fn lemma_record_addresses(records: Seq<DnsRecord>, ip: IpAddr)
    ensures
        record_addresses(records).contains(ip) <==> exists|j: int|
            0 <= j < records.len() && record_address((#[trigger] records[j]).deep_view()) == Some(ip),
    decreases records.len(),
{
    if records.len() > 0 {
        let front = records.drop_last();
        let last = records.len() - 1;
        let before = record_addresses(front);
        let all = record_addresses(records);
        lemma_record_addresses(front, ip);
        if all.contains(ip) {
            let k = choose|k: int| 0 <= k < all.len() && all[k] == ip;
            if k < before.len() {
                assert(before[k] == ip);
                let j = choose|j: int|
                    0 <= j < front.len() && record_address((#[trigger] front[j]).deep_view()) == Some(ip);
                assert(record_address(records[j].deep_view()) == Some(ip));
            } else {
                assert(record_address(records[last].deep_view()) == Some(ip));
            }
        }
        if exists|j: int| 0 <= j < records.len() && record_address((#[trigger] records[j]).deep_view()) == Some(ip) {
            let j = choose|j: int|
                0 <= j < records.len() && record_address((#[trigger] records[j]).deep_view()) == Some(ip);
            if j < last {
                assert(record_address(front[j].deep_view()) == Some(ip));
                let k = choose|k: int| 0 <= k < before.len() && before[k] == ip;
                assert(all[k] == ip);
            } else {
                assert(all[before.len() as int] == ip);
            }
        }
    }
}

/// The destinations are the addresses of the families asked for, in their order,
/// each at the port asked for.
pub proof fn lemma_probed_destinations(addrs: Seq<IpAddr>, ipv4_only: bool, ipv6_only: bool, port: u16)
    ensures
        destinations(addrs, ipv4_only, ipv6_only, port) == addrs.filter(
            |ip: IpAddr| (ipv4_only ==> ip is V4) && (!ipv4_only && ipv6_only ==> ip is V6),
        ).map_values(|ip: IpAddr| SocketAddr { ip, port, scope_id: 0 }),
    decreases addrs.len(),
{
    reveal(Seq::filter);
    if addrs.len() > 0 {
        lemma_probed_destinations(addrs.drop_last(), ipv4_only, ipv6_only, port);
    }
    assert(destinations(addrs, ipv4_only, ipv6_only, port) =~= addrs.filter(
        |ip: IpAddr| (ipv4_only ==> ip is V4) && (!ipv4_only && ipv6_only ==> ip is V6),
    ).map_values(|ip: IpAddr| SocketAddr { ip, port, scope_id: 0 }));
}

/// Destinations are shown with IPv4 before IPv6, and IPv4 destinations by the
/// number that their octets make up, then by port.
pub proof fn lemma_order_of_destinations(a: SocketAddr, b: SocketAddr)
    ensures
        a.ip is V4 && b.ip is V6 ==> precedes(order_key(a), order_key(b)) && !precedes(order_key(b), order_key(a)),
        a.ip matches IpAddr::V4(x) ==> (b.ip matches IpAddr::V4(y) ==> {
            let p = x.a * 16777216 + x.b * 65536 + x.c * 256 + x.d;
            let q = y.a * 16777216 + y.b * 65536 + y.c * 256 + y.d;
            &&& p < q ==> precedes(order_key(a), order_key(b))
            &&& p == q && a.port < b.port ==> precedes(order_key(a), order_key(b))
        }),
        a.ip matches IpAddr::V6(x) ==> (b.ip matches IpAddr::V6(y) ==> {
            &&& x.g0 < y.g0 ==> precedes(order_key(a), order_key(b))
            &&& x == y && a.port < b.port ==> precedes(order_key(a), order_key(b))
        }),
{
    let x = order_key(a);
    let y = order_key(b);
    if a.ip is V4 && b.ip is V6 {
        assert(x[0] < y[0]);
    } else if a.ip is V4 && b.ip is V4 {
        lemma_first_difference(x, y, 0);
        lemma_first_difference(x, y, 1);
        lemma_first_difference(x, y, 2);
        lemma_first_difference(x, y, 3);
        lemma_first_difference(x, y, 4);
        lemma_first_difference(x, y, 5);
    } else if a.ip is V6 && b.ip is V6 {
        lemma_first_difference(x, y, 1);
        lemma_first_difference(x, y, 9);
    }
}

/// The first number that differs decides.
proof fn lemma_first_difference(x: Seq<u32>, y: Seq<u32>, k: int)
    requires
        0 <= k < x.len(),
        k < y.len(),
    ensures
        (forall|j: int| 0 <= j < k ==> #[trigger] x[j] == y[j]) && x[k] < y[k] ==> precedes(x, y),
    decreases k,
{
    if k > 0 && (forall|j: int| 0 <= j < k ==> #[trigger] x[j] == y[j]) {
        assert(x[0] == y[0]);
        lemma_first_difference(x.skip(1), y.skip(1), k - 1);
        assert forall|j: int| 0 <= j < k - 1 implies #[trigger] x.skip(1)[j] == y.skip(1)[j] by {
            assert(x[j + 1] == y[j + 1]);
        }
    }
}

} // verus!
