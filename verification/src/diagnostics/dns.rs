//! DNS-resolution diagnostic rules.

use super::input::{finding, one, raise, strings, two, DiagnosticInput};
use crate::model::diagnosis::DiagnosisModel;
use crate::model::dns::{record_address, same_resolver, ResolverModel};
use crate::model::{Confidence, Diagnosis, DiagnosticCategory, DnsObservation, ResolverKind, Severity};
use crate::net::IpAddr;
use crate::text::{dec, first_seen, glue3, join, join_texts, push_dec, push_text, texts};
use vstd::prelude::*;

verus! {

/// Whether an observation answered with at least one record.
pub open spec fn answered(o: DnsObservation) -> bool {
    o.error is None && o.records@.len() > 0
}

/// Whether an observation's records hold an address.
pub open spec fn gives(o: DnsObservation, a: IpAddr) -> bool {
    exists|j: int| 0 <= j < o.records@.len() && record_address((#[trigger] o.records@[j]).deep_view()) == Some(a)
}

/// The addresses that a resolver answered with, of both families together.
pub open spec fn addresses_from(s: Seq<DnsObservation>, r: ResolverModel) -> Set<IpAddr> {
    Set::new(
        |a: IpAddr|
            exists|i: int|
                0 <= i < s.len() && answered(#[trigger] s[i]) && s[i].resolver.deep_view() == r && gives(s[i], a),
    )
}

/// For each of some answering observations, the address set of its resolver.
pub open spec fn answer_sets(all: Seq<DnsObservation>, part: Seq<DnsObservation>) -> Seq<Set<IpAddr>>
    decreases part.len(),
{
    if part.len() == 0 {
        Seq::empty()
    } else if answered(part.last()) {
        answer_sets(all, part.drop_last()).push(addresses_from(all, part.last().resolver.deep_view()))
    } else {
        answer_sets(all, part.drop_last())
    }
}

/// The number of distinct address sets over the resolvers that answered.
pub open spec fn distinct_sets(s: Seq<DnsObservation>) -> nat {
    first_seen(answer_sets(s, s)).len()
}

/// Whether different resolvers answered with different address sets. One
/// resolver that answers with an A and an AAAA set does not disagree with
/// itself.
pub open spec fn disagreement(s: Seq<DnsObservation>) -> bool {
    distinct_sets(s) > 1
}

/// Whether nothing resolved anywhere.
pub open spec fn all_failed(s: Seq<DnsObservation>) -> bool {
    s.len() > 0 && forall|i: int| 0 <= i < s.len() ==> (#[trigger] s[i]).error is Some
}

/// The messages of the failed observations.
pub open spec fn failure_messages(s: Seq<DnsObservation>) -> Seq<Seq<char>>
    decreases s.len(),
{
    if s.len() == 0 {
        Seq::empty()
    } else {
        match s.last().error {
            Some(e) => failure_messages(s.drop_last()).push(e.message@),
            None => failure_messages(s.drop_last()),
        }
    }
}

/// Why nothing may resolve.
pub open spec fn resolution_causes() -> Seq<Seq<char>> {
    seq![
        "resolver outage"@,
        "upstream network problem"@,
        "domain does not exist or has no records"@,
        "local DNS configuration / filtering"@,
    ]
}

/// Why resolvers may disagree.
pub open spec fn disagreement_causes() -> Seq<Seq<char>> {
    seq![
        "GeoDNS"@,
        "CDN / load-balanced DNS"@,
        "EDNS Client Subnet (ECS)"@,
        "caching or normal resolver differences"@,
        "DNS manipulation (unproven)"@,
    ]
}

/// What DNS amounts to: a failure from every resolver, or a disagreement
/// between resolvers.
pub open spec fn resolution(hostname: Seq<char>, dns: Seq<DnsObservation>) -> Seq<DiagnosisModel> {
    if all_failed(dns) {
        seq![
            DiagnosisModel {
                severity: Severity::High,
                category: DiagnosticCategory::Dns,
                confidence: Confidence::High,
                summary: "DNS resolution failed for "@ + hostname + " from every resolver"@,
                evidence: seq!["no A/AAAA records returned"@, join(failure_messages(dns), "; "@)],
                possible_causes: resolution_causes(),
            },
        ]
    } else if disagreement(dns) {
        seq![
            DiagnosisModel {
                severity: Severity::Low,
                category: DiagnosticCategory::Dns,
                confidence: Confidence::Low,
                summary: "Resolvers disagree on "@ + hostname + "'s addresses"@,
                evidence: seq![dec(distinct_sets(dns)) + " distinct address sets returned"@],
                possible_causes: disagreement_causes(),
            },
        ]
    } else {
        Seq::empty()
    }
}

/// Whether a list holds an address.
fn holds(v: &[IpAddr], a: IpAddr) -> (r: bool)
    ensures
        r == v@.contains(a),
{
    for i in 0..v.len()
        invariant
            forall|j: int| 0 <= j < i ==> #[trigger] v@[j] != a,
    {
        if v[i] == a {
            assert(v@.contains(a));
            return true;
        }
    }
    false
}

/// Whether two lists hold the same addresses.
fn same_addresses(a: &[IpAddr], b: &[IpAddr]) -> (r: bool)
    ensures
        r == (a@.to_set() == b@.to_set()),
{
    for i in 0..a.len()
        invariant
            forall|j: int| 0 <= j < i ==> b@.contains(#[trigger] a@[j]),
    {
        if !holds(b, a[i]) {
            assert(a@.to_set().contains(a@[i as int]));
            assert(!b@.to_set().contains(a@[i as int]));
            return false;
        }
    }
    for i in 0..b.len()
        invariant
            forall|j: int| 0 <= j < i ==> a@.contains(#[trigger] b@[j]),
    {
        if !holds(a, b[i]) {
            assert(b@.to_set().contains(b@[i as int]));
            assert(!a@.to_set().contains(b@[i as int]));
            return false;
        }
    }
    assert(a@.to_set() =~= b@.to_set());
    true
}

/// Append the addresses of an observation's records.
fn push_addresses(out: &mut Vec<IpAddr>, o: &DnsObservation)
    ensures
        forall|a: IpAddr| #[trigger] final(out)@.contains(a) <==> (old(out)@.contains(a) || gives(*o, a)),
{
    let ghost before = out@;
    for i in 0..o.records.len()
        invariant
            forall|a: IpAddr| #[trigger]
                out@.contains(a) <==> (before.contains(a) || exists|j: int|
                    0 <= j < i && record_address((#[trigger] o.records@[j]).deep_view()) == Some(a)),
    {
        match o.records[i].address() {
            Some(ip) => {
                let ghost mid = out@;
                out.push(ip);
                assert forall|a: IpAddr| #[trigger] out@.contains(a) <==> (mid.contains(a) || a == ip) by {
                    if mid.contains(a) {
                        let k = choose|k: int| 0 <= k < mid.len() && mid[k] == a;
                        assert(out@[k] == a);
                    }
                    assert(out@[mid.len() as int] == ip);
                }
                assert(record_address(o.records@[i as int].deep_view()) == Some(ip));
            },
            None => {},
        }
    }
}

/// The addresses that a resolver answered with.
fn list_addresses(s: &[DnsObservation], r: &ResolverKind) -> (out: Vec<IpAddr>)
    ensures
        out@.to_set() == addresses_from(s@, r.deep_view()),
{
    let mut out: Vec<IpAddr> = Vec::new();
    for i in 0..s.len()
        invariant
            forall|a: IpAddr| #[trigger]
                out@.contains(a) <==> exists|k: int|
                    0 <= k < i && answered(#[trigger] s@[k]) && s@[k].resolver.deep_view() == r.deep_view() && gives(
                        s@[k],
                        a,
                    ),
    {
        let ghost mid = out@;
        if s[i].error.is_none() && s[i].records.len() > 0 && same_resolver(&s[i].resolver, r) {
            assert(answered(s@[i as int]));
            push_addresses(&mut out, &s[i]);
        }
    }
    assert(out@.to_set() =~= addresses_from(s@, r.deep_view()));
    out
}

/// The distinct address sets over the resolvers that answered.
fn count_sets(s: &[DnsObservation]) -> (n: usize)
    ensures
        n == distinct_sets(s@),
{
    let mut lists: Vec<Vec<IpAddr>> = Vec::new();
    for i in 0..s.len()
        invariant
            lists@.len() == first_seen(answer_sets(s@, s@.take(i as int))).len(),
            forall|k: int|
                0 <= k < lists@.len() ==> (#[trigger] lists@[k])@.to_set() == first_seen(
                    answer_sets(s@, s@.take(i as int)),
                )[k],
    {
        let ghost seen = first_seen(answer_sets(s@, s@.take(i as int)));
        assert(s@.take(i as int + 1).drop_last() =~= s@.take(i as int));
        if s[i].error.is_none() && s[i].records.len() > 0 {
            let list = list_addresses(s, &s[i].resolver);
            let ghost sets = answer_sets(s@, s@.take(i as int + 1));
            assert(sets.drop_last() =~= answer_sets(s@, s@.take(i as int)));
            assert(sets.last() == list@.to_set());
            let mut known = false;
            for j in 0..lists.len()
                invariant
                    lists@.len() == seen.len(),
                    forall|k: int| 0 <= k < lists@.len() ==> (#[trigger] lists@[k])@.to_set() == seen[k],
                    known == exists|k: int| 0 <= k < j && #[trigger] seen[k] == list@.to_set(),
            {
                if same_addresses(lists[j].as_slice(), list.as_slice()) {
                    assert(seen[j as int] == list@.to_set());
                    known = true;
                }
            }
            if !known {
                assert(!seen.contains(list@.to_set()));
                lists.push(list);
            }
        }
    }
    assert(s@.take(s@.len() as int) =~= s@);
    lists.len()
}

/// The messages of the failed observations.
fn list_messages(s: &[DnsObservation]) -> (out: Vec<String>)
    ensures
        texts(out@) == failure_messages(s@),
{
    let mut out: Vec<String> = Vec::new();
    assert(texts(out@) =~= Seq::empty());
    for i in 0..s.len()
        invariant
            texts(out@) == failure_messages(s@.take(i as int)),
    {
        assert(s@.take(i as int + 1).drop_last() =~= s@.take(i as int));
        match &s[i].error {
            Some(e) => push_text(&mut out, e.message.clone()),
            None => {},
        }
    }
    assert(s@.take(s@.len() as int) =~= s@);
    out
}

/// Whether nothing resolved anywhere.
fn none_resolved(s: &[DnsObservation]) -> (r: bool)
    ensures
        r == all_failed(s@),
{
    for i in 0..s.len()
        invariant
            forall|j: int| 0 <= j < i ==> (#[trigger] s@[j]).error is Some,
    {
        if s[i].error.is_none() {
            assert(s@[i as int].error is None);
            return false;
        }
    }
    s.len() > 0
}

/// DNS rules. Returns whether resolver disagreement was observed (also feeds
/// the filtering analysis).
pub fn dns_rules(input: &DiagnosticInput, out: &mut Vec<Diagnosis>) -> (disagree: bool)
    ensures
        final(out).deep_view() == old(out).deep_view() + resolution(input.hostname@, input.dns@),
        disagree == disagreement(input.dns@),
{
    let ghost before = out.deep_view();
    assert(before + Seq::<DiagnosisModel>::empty() =~= before);
    let sets = count_sets(input.dns);
    if none_resolved(input.dns) {
        let messages = list_messages(input.dns);
        let causes = strings(
            vec![
                "resolver outage",
                "upstream network problem",
                "domain does not exist or has no records",
                "local DNS configuration / filtering",
            ],
        );
        assert(texts(causes@) =~= resolution_causes());
        let d = finding(
            Severity::High,
            DiagnosticCategory::Dns,
            Confidence::High,
            glue3("DNS resolution failed for ", input.hostname, " from every resolver"),
            two("no A/AAAA records returned".to_owned(), join_texts(messages.as_slice(), "; ")),
            causes,
        );
        raise(out, d);
    } else if sets > 1 {
        let causes = strings(
            vec![
                "GeoDNS",
                "CDN / load-balanced DNS",
                "EDNS Client Subnet (ECS)",
                "caching or normal resolver differences",
                "DNS manipulation (unproven)",
            ],
        );
        assert(texts(causes@) =~= disagreement_causes());
        let mut detail = String::new();
        push_dec(&mut detail, sets as u64);
        assert(detail@ =~= dec(sets as nat));
        detail.append(" distinct address sets returned");
        let d = finding(
            Severity::Low,
            DiagnosticCategory::Dns,
            Confidence::Low,
            glue3("Resolvers disagree on ", input.hostname, "'s addresses"),
            one(detail),
            causes,
        );
        raise(out, d);
    }
    assert(out.deep_view() =~= before + resolution(input.hostname@, input.dns@));
    sets > 1
}

/// A single resolver never disagrees with itself, however many record types it
/// answered.
pub proof fn lemma_one_resolver_agrees(s: Seq<DnsObservation>)
    requires
        forall|i: int, j: int|
            0 <= i < s.len() && 0 <= j < s.len() ==> (#[trigger] s[i]).resolver.deep_view() == (
            #[trigger] s[j]).resolver.deep_view(),
    ensures
        !disagreement(s),
{
    lemma_one_set(s, s);
}

/// With one resolver the first-seen address sets are at most one.
proof fn lemma_one_set(all: Seq<DnsObservation>, part: Seq<DnsObservation>)
    requires
        part.len() <= all.len(),
        part =~= all.take(part.len() as int),
        forall|i: int, j: int|
            0 <= i < all.len() && 0 <= j < all.len() ==> (#[trigger] all[i]).resolver.deep_view() == (
            #[trigger] all[j]).resolver.deep_view(),
    ensures
        first_seen(answer_sets(all, part)).len() <= 1,
        all.len() > 0 && first_seen(answer_sets(all, part)).len() == 1 ==> first_seen(answer_sets(all, part))[0]
            == addresses_from(all, all[0].resolver.deep_view()),
    decreases part.len(),
{
    if part.len() > 0 {
        let front = part.drop_last();
        assert(front =~= all.take(front.len() as int));
        lemma_one_set(all, front);
        if answered(part.last()) {
            let sets = answer_sets(all, part);
            assert(sets.drop_last() =~= answer_sets(all, front));
            assert(part.last() == all[part.len() - 1]);
            assert(sets.last() == addresses_from(all, all[0].resolver.deep_view()));
            if first_seen(answer_sets(all, front)).len() == 1 {
                assert(first_seen(answer_sets(all, front)).contains(sets.last()));
            }
        }
    }
}

} // verus!
