//! TCP connectivity diagnostic rules: total loss, partial reachability, and
//! address-family asymmetries.

use super::input::{
    count_kind, distinct_kinds, finding, is_local_unreachability, kind_count, kind_count_text, local_unreachability,
    one, raise, strings, two, DiagnosticInput,
};
use crate::model::diagnosis::DiagnosisModel;
use crate::model::{Confidence, Diagnosis, DiagnosticCategory, FailureKind, Severity, TcpObservation};
use crate::probe::occurrences;
use crate::text::{dec, first_seen, glue, glue3, join, join_texts, push_dec, push_text, texts};
use vstd::prelude::*;

verus! {

/// The destinations that were (or were not) reached.
pub open spec fn destinations(tcp: Seq<TcpObservation>, success: bool) -> Seq<Seq<char>>
    decreases tcp.len(),
{
    if tcp.len() == 0 {
        Seq::empty()
    } else if tcp.last().success == success {
        destinations(tcp.drop_last(), success).push(tcp.last().destination.text())
    } else {
        destinations(tcp.drop_last(), success)
    }
}

/// Whether every failed observation is the host's own lack of a route.
pub open spec fn all_local(tcp: Seq<TcpObservation>) -> bool {
    forall|i: int|
        0 <= i < tcp.len() && !(#[trigger] tcp[i]).success ==> (tcp[i].failure matches Some(f)
            && is_local_unreachability(f.kind))
}

/// The modes of the failed observations that have one.
pub open spec fn failed_modes(tcp: Seq<TcpObservation>) -> Seq<FailureKind>
    decreases tcp.len(),
{
    if tcp.len() == 0 {
        Seq::empty()
    } else {
        match (tcp.last().success, tcp.last().failure) {
            (false, Some(f)) => failed_modes(tcp.drop_last()).push(f.kind),
            _ => failed_modes(tcp.drop_last()),
        }
    }
}

/// Each of some modes with its number of occurrences.
pub open spec fn mode_counts(modes: Seq<FailureKind>, kinds: Seq<FailureKind>) -> Seq<Seq<char>> {
    modes.map_values(|k: FailureKind| kind_count(k, occurrences(kinds, k)))
}

/// The distinct failure modes with their numbers, in the order in which they
/// first occur.
pub open spec fn mode_summary(tcp: Seq<TcpObservation>) -> Seq<char> {
    let kinds = failed_modes(tcp);
    join(mode_counts(first_seen(kinds), kinds), ", "@)
}

/// How sure a connectivity diagnosis is: high only from several failing
/// addresses.
pub open spec fn confidence_of(failing: nat) -> Confidence {
    if failing > 1 {
        Confidence::High
    } else {
        Confidence::Medium
    }
}

/// Why no address may be reachable.
pub open spec fn total_loss_causes() -> Seq<Seq<char>> {
    seq![
        "destination server down"@,
        "firewall / ACL blocking"@,
        "wrong port"@,
        "routing failure"@,
        "local egress restriction"@,
    ]
}

/// Why only some addresses may be reachable.
pub open spec fn partial_causes() -> Seq<Seq<char>> {
    seq![
        "CDN / load balancer node failure"@,
        "destination-specific filtering"@,
        "routing asymmetry between addresses"@,
        "packet loss on a subset of paths"@,
    ]
}

/// What TCP reachability amounts to: total loss when no address answers,
/// partial reachability when some do and some do not, and nothing when every
/// failure is the host's own missing route.
pub open spec fn connectivity(hostname: Seq<char>, tcp: Seq<TcpObservation>) -> Seq<DiagnosisModel> {
    let ok = destinations(tcp, true);
    let bad = destinations(tcp, false);
    if bad.len() == 0 || all_local(tcp) {
        Seq::empty()
    } else if ok.len() == 0 {
        seq![
            DiagnosisModel {
                severity: Severity::High,
                category: DiagnosticCategory::TotalConnectivityLoss,
                confidence: confidence_of(bad.len()),
                summary: "No address of "@ + hostname + " accepts TCP connections"@,
                evidence: seq![
                    dec(bad.len()) + " addresses probed, "@ + dec(bad.len()) + " failed"@,
                    mode_summary(tcp),
                ],
                possible_causes: total_loss_causes(),
            },
        ]
    } else {
        seq![
            DiagnosisModel {
                severity: Severity::Medium,
                category: DiagnosticCategory::PartialConnectivity,
                confidence: confidence_of(bad.len()),
                summary: "Only some addresses of "@ + hostname + " are reachable"@,
                evidence: seq!["reachable: "@ + join(ok, ", "@), "unreachable: "@ + join(bad, ", "@)],
                possible_causes: partial_causes(),
            },
        ]
    }
}

/// The destinations that were (or were not) reached.
fn list_destinations(tcp: &[TcpObservation], success: bool) -> (out: Vec<String>)
    ensures
        texts(out@) == destinations(tcp@, success),
        out@.len() == destinations(tcp@, success).len(),
{
    let mut out: Vec<String> = Vec::new();
    assert(texts(out@) =~= Seq::empty());
    for i in 0..tcp.len()
        invariant
            texts(out@) == destinations(tcp@.take(i as int), success),
    {
        assert(tcp@.take(i as int + 1).drop_last() =~= tcp@.take(i as int));
        if tcp[i].success == success {
            push_text(&mut out, tcp[i].destination.to_text());
        }
    }
    assert(tcp@.take(tcp@.len() as int) =~= tcp@);
    assert(texts(out@).len() == out@.len());
    out
}

/// Whether every failed observation is the host's own lack of a route.
fn all_local_unreachability(tcp: &[TcpObservation]) -> (r: bool)
    ensures
        r == all_local(tcp@),
{
    for i in 0..tcp.len()
        invariant
            forall|j: int|
                0 <= j < i && !(#[trigger] tcp@[j]).success ==> (tcp@[j].failure matches Some(f)
                    && is_local_unreachability(f.kind)),
    {
        if !tcp[i].success {
            let local = match &tcp[i].failure {
                Some(f) => local_unreachability(f.kind),
                None => false,
            };
            if !local {
                assert(!tcp@[i as int].success);
                return false;
            }
        }
    }
    true
}

/// Summarize the distinct failure kinds of the failed observations.
fn failure_summary(tcp: &[TcpObservation]) -> (out: String)
    ensures
        out@ == mode_summary(tcp@),
{
    let mut kinds: Vec<FailureKind> = Vec::new();
    for i in 0..tcp.len()
        invariant
            kinds@ == failed_modes(tcp@.take(i as int)),
    {
        assert(tcp@.take(i as int + 1).drop_last() =~= tcp@.take(i as int));
        if !tcp[i].success {
            match &tcp[i].failure {
                Some(f) => kinds.push(f.kind),
                None => {},
            }
        }
    }
    assert(tcp@.take(tcp@.len() as int) =~= tcp@);
    let modes = distinct_kinds(kinds.as_slice());
    let mut parts: Vec<String> = Vec::new();
    assert(texts(parts@) =~= mode_counts(modes@.take(0), kinds@));
    for i in 0..modes.len()
        invariant
            texts(parts@) == mode_counts(modes@.take(i as int), kinds@),
    {
        let n = count_kind(kinds.as_slice(), modes[i]);
        push_text(&mut parts, kind_count_text(modes[i], n));
        assert(mode_counts(modes@.take(i as int + 1), kinds@) =~= mode_counts(modes@.take(i as int), kinds@).push(
            kind_count(modes@[i as int], n as nat),
        ));
    }
    assert(modes@.take(modes@.len() as int) =~= modes@);
    join_texts(parts.as_slice(), ", ")
}

/// Total or partial TCP connectivity loss.
pub fn connectivity_rules(input: &DiagnosticInput, out: &mut Vec<Diagnosis>)
    ensures
        final(out).deep_view() == old(out).deep_view() + connectivity(input.hostname@, input.tcp@),
{
    let ghost before = out.deep_view();
    assert(before + Seq::<DiagnosisModel>::empty() =~= before);
    let ok = list_destinations(input.tcp, true);
    let bad = list_destinations(input.tcp, false);
    if bad.len() == 0 || all_local_unreachability(input.tcp) {
        return ;
    }
    let confidence = if bad.len() > 1 {
        Confidence::High
    } else {
        Confidence::Medium
    };
    if ok.len() == 0 {
        let mut first = String::new();
        push_dec(&mut first, bad.len() as u64);
        assert(first@ =~= dec(bad@.len()));
        first.append(" addresses probed, ");
        push_dec(&mut first, bad.len() as u64);
        first.append(" failed");
        let causes = strings(
            vec![
                "destination server down",
                "firewall / ACL blocking",
                "wrong port",
                "routing failure",
                "local egress restriction",
            ],
        );
        assert(texts(causes@) =~= total_loss_causes());
        let d = finding(
            Severity::High,
            DiagnosticCategory::TotalConnectivityLoss,
            confidence,
            glue3("No address of ", input.hostname, " accepts TCP connections"),
            two(first, failure_summary(input.tcp)),
            causes,
        );
        raise(out, d);
    } else {
        let causes = strings(
            vec![
                "CDN / load balancer node failure",
                "destination-specific filtering",
                "routing asymmetry between addresses",
                "packet loss on a subset of paths",
            ],
        );
        assert(texts(causes@) =~= partial_causes());
        let d = finding(
            Severity::Medium,
            DiagnosticCategory::PartialConnectivity,
            confidence,
            glue3("Only some addresses of ", input.hostname, " are reachable"),
            two(
                glue("reachable: ", join_texts(ok.as_slice(), ", ").as_str()),
                glue("unreachable: ", join_texts(bad.as_slice(), ", ").as_str()),
            ),
            causes,
        );
        raise(out, d);
    }
    assert(out.deep_view() =~= before + connectivity(input.hostname@, input.tcp@));
}

// --- address families ------------------------------------------------------------------

/// Whether an observation belongs to a family.
pub open spec fn in_family(o: TcpObservation, ipv4: bool) -> bool {
    (o.destination.ip is V4) == ipv4
}

/// What a family amounts to: nothing without an address of it, else whether
/// any address of it answered.
pub open spec fn family_result(tcp: Seq<TcpObservation>, ipv4: bool) -> Option<bool> {
    if exists|i: int| 0 <= i < tcp.len() && in_family(#[trigger] tcp[i], ipv4) {
        Some(exists|i: int| 0 <= i < tcp.len() && in_family(#[trigger] tcp[i], ipv4) && tcp[i].success)
    } else {
        None
    }
}

/// Why one family may fail.
pub open spec fn family_causes() -> Seq<Seq<char>> {
    seq![
        "broken or missing IPv6"@,
        "destination has no working IPv6"@,
        "firewall / ISP IPv6 filtering"@,
        "routing problem for one family"@,
    ]
}

/// Why a family may have no local route.
pub open spec fn no_route_causes(fam: Seq<char>) -> Seq<Seq<char>> {
    seq![
        "no "@ + fam + " route / global address on the probing host"@,
        fam + " disabled on the destination or its network"@,
        "firewall or policy blocking "@ + fam + " traffic locally"@,
    ]
}

/// The name of a family.
pub open spec fn family_name(ipv4: bool) -> Seq<char> {
    if ipv4 {
        "IPv4"@
    } else {
        "IPv6"@
    }
}

/// The diagnosis for two families of which one fails.
pub open spec fn asymmetry(v4_ok: bool, v6_ok: bool) -> DiagnosisModel {
    DiagnosisModel {
        severity: Severity::Low,
        category: DiagnosticCategory::AddressFamily,
        confidence: Confidence::Medium,
        summary: family_name(!v4_ok) + " connectivity fails while the other family works"@,
        evidence: seq![
            if v4_ok {
                "IPv4: reachable"@
            } else {
                "IPv4: unreachable"@
            },
            if v6_ok {
                "IPv6: reachable"@
            } else {
                "IPv6: unreachable"@
            },
        ],
        possible_causes: family_causes(),
    }
}

/// The diagnosis for a single family without a local route.
pub open spec fn no_route(hostname: Seq<char>, ipv4: bool) -> DiagnosisModel {
    let fam = family_name(ipv4);
    DiagnosisModel {
        severity: Severity::Low,
        category: DiagnosticCategory::AddressFamily,
        confidence: Confidence::Medium,
        summary: fam + " connectivity is locally unreachable (no route) for "@ + hostname,
        evidence: seq![fam + ": every address locally unreachable (network/host unreachable)"@],
        possible_causes: no_route_causes(fam),
    }
}

/// What the families amount to: an asymmetry when one works and the other does
/// not, and the missing route when the only family fails for want of one.
pub open spec fn families(hostname: Seq<char>, tcp: Seq<TcpObservation>) -> Seq<DiagnosisModel> {
    match (family_result(tcp, true), family_result(tcp, false)) {
        (Some(v4_ok), Some(v6_ok)) => if v4_ok != v6_ok {
            seq![asymmetry(v4_ok, v6_ok)]
        } else {
            Seq::empty()
        },
        (Some(ok), None) => if !ok && all_local(tcp) {
            seq![no_route(hostname, true)]
        } else {
            Seq::empty()
        },
        (None, Some(ok)) => if !ok && all_local(tcp) {
            seq![no_route(hostname, false)]
        } else {
            Seq::empty()
        },
        (None, None) => Seq::empty(),
    }
}

/// Whether any address of a family answered; nothing without one.
fn family(tcp: &[TcpObservation], ipv4: bool) -> (r: Option<bool>)
    ensures
        r == family_result(tcp@, ipv4),
{
    let mut any = false;
    let mut ok = false;
    for i in 0..tcp.len()
        invariant
            any == exists|j: int| 0 <= j < i && in_family(#[trigger] tcp@[j], ipv4),
            ok == exists|j: int| 0 <= j < i && in_family(#[trigger] tcp@[j], ipv4) && tcp@[j].success,
    {
        if tcp[i].destination.ip.is_ipv4() == ipv4 {
            assert(in_family(tcp@[i as int], ipv4));
            any = true;
            if tcp[i].success {
                ok = true;
            }
        }
    }
    if any {
        Some(ok)
    } else {
        None
    }
}

/// IPv4 vs IPv6 asymmetry, plus the single-family local-unreachability note.
pub fn family_rules(input: &DiagnosticInput, out: &mut Vec<Diagnosis>)
    ensures
        final(out).deep_view() == old(out).deep_view() + families(input.hostname@, input.tcp@),
{
    let ghost before = out.deep_view();
    assert(before + Seq::<DiagnosisModel>::empty() =~= before);
    let v4 = family(input.tcp, true);
    let v6 = family(input.tcp, false);
    match (v4, v6) {
        (Some(v4_ok), Some(v6_ok)) => {
            if v4_ok != v6_ok {
                raise_asymmetry(out, v4_ok, v6_ok);
            }
        },
        (Some(ok), None) => {
            if !ok && all_local_unreachability(input.tcp) {
                raise_no_route(out, input.hostname, true);
            }
        },
        (None, Some(ok)) => {
            if !ok && all_local_unreachability(input.tcp) {
                raise_no_route(out, input.hostname, false);
            }
        },
        (None, None) => {},
    }
    assert(out.deep_view() =~= before + families(input.hostname@, input.tcp@));
}

/// The name of a family.
fn family_label(ipv4: bool) -> (out: &'static str)
    ensures
        out@ == family_name(ipv4),
{
    if ipv4 {
        "IPv4"
    } else {
        "IPv6"
    }
}

/// Report an asymmetry.
fn raise_asymmetry(out: &mut Vec<Diagnosis>, v4_ok: bool, v6_ok: bool)
    ensures
        final(out).deep_view() == old(out).deep_view().push(asymmetry(v4_ok, v6_ok)),
{
    let causes = strings(
        vec![
            "broken or missing IPv6",
            "destination has no working IPv6",
            "firewall / ISP IPv6 filtering",
            "routing problem for one family",
        ],
    );
    assert(texts(causes@) =~= family_causes());
    let d = finding(
        Severity::Low,
        DiagnosticCategory::AddressFamily,
        Confidence::Medium,
        glue(family_label(!v4_ok), " connectivity fails while the other family works"),
        two(
            (if v4_ok {
                "IPv4: reachable"
            } else {
                "IPv4: unreachable"
            }).to_owned(),
            (if v6_ok {
                "IPv6: reachable"
            } else {
                "IPv6: unreachable"
            }).to_owned(),
        ),
        causes,
    );
    raise(out, d);
}

/// Report a family without a local route.
fn raise_no_route(out: &mut Vec<Diagnosis>, hostname: &str, ipv4: bool)
    ensures
        final(out).deep_view() == old(out).deep_view().push(no_route(hostname@, ipv4)),
{
    let fam = family_label(ipv4);
    let mut causes: Vec<String> = Vec::new();
    push_text(&mut causes, glue3("no ", fam, " route / global address on the probing host"));
    push_text(&mut causes, glue(fam, " disabled on the destination or its network"));
    push_text(&mut causes, glue3("firewall or policy blocking ", fam, " traffic locally"));
    assert(texts(causes@) =~= no_route_causes(fam@));
    let d = finding(
        Severity::Low,
        DiagnosticCategory::AddressFamily,
        Confidence::Medium,
        glue3(fam, " connectivity is locally unreachable (no route) for ", hostname),
        one(glue(fam, ": every address locally unreachable (network/host unreachable)")),
        causes,
    );
    raise(out, d);
}

/// Failures that are all the host's own missing route never count as total or
/// partial loss of the destination.
pub proof fn lemma_local_unreachability_is_no_loss(hostname: Seq<char>, tcp: Seq<TcpObservation>)
    requires
        all_local(tcp),
    ensures
        connectivity(hostname, tcp) == Seq::<DiagnosisModel>::empty(),
{
}

/// High confidence in a connectivity diagnosis needs at least two failing
/// addresses.
pub proof fn lemma_high_confidence_needs_several_failures(hostname: Seq<char>, tcp: Seq<TcpObservation>, i: int)
    requires
        0 <= i < connectivity(hostname, tcp).len(),
        connectivity(hostname, tcp)[i].confidence == Confidence::High,
    ensures
        destinations(tcp, false).len() >= 2,
{
}

} // verus!
