//! What the diagnoses amount to: for each category, the observations under
//! which it is raised, and that it is raised under no others.

use super::connectivity::{all_local, connectivity, destinations, families, family_result, in_family};
use super::dns::{addresses_from, answer_sets, answered, disagreement, gives, resolution};
use super::filtering::{address_specific, handshakes_fail, path_failure, quic_only, resets, suspicion, was_reset};
use super::input::{connected, is_http3, is_local_unreachability};
use super::layer::{
    coverage, coverage_of, end_findings, flapping, http_layer, layer_failed, layer_failures, lifetimes, quic_path,
    redirect_list, redirection, redirects, served, stalled, stalled_list, start_findings, tls_layer, tls_only_failures,
    truncation,
};
use super::{diagnoses, findings, healthy, input_signals, DiagnosticInput};
use crate::model::diagnosis::DiagnosisModel;
use crate::model::dns::{record_address, DnsRecordModel, ResolverModel};
use crate::model::{
    CertificateSummary, Confidence, DiagnosticCategory, DnsObservation, FailureKind, HttpObservation, ProbeResult,
    Severity, TcpObservation, TlsObservation,
};
use crate::net::IpAddr;
use crate::report::cert::covers;
use crate::report::date::days_until;
use crate::text::{dec, lemma_first_seen_is_each_once};
use vstd::prelude::*;

verus! {

/// Whether a diagnosis of a category is among some.
pub open spec fn raised(s: Seq<DiagnosisModel>, c: DiagnosticCategory) -> bool {
    exists|i: int| 0 <= i < s.len() && (#[trigger] s[i]).category == c
}

/// Something is in a joined sequence if it is in a part.
proof fn lemma_joined(a: Seq<DiagnosisModel>, b: Seq<DiagnosisModel>, d: DiagnosisModel)
    ensures
        (a + b).contains(d) <==> a.contains(d) || b.contains(d),
{
    if a.contains(d) {
        let i = choose|i: int| 0 <= i < a.len() && a[i] == d;
        assert((a + b)[i] == d);
    }
    if b.contains(d) {
        let i = choose|i: int| 0 <= i < b.len() && b[i] == d;
        assert((a + b)[a.len() + i] == d);
    }
    if (a + b).contains(d) {
        let i = choose|i: int| 0 <= i < (a + b).len() && (a + b)[i] == d;
        if i < a.len() {
            assert(a[i] == d);
        } else {
            assert(b[i - a.len()] == d);
        }
    }
}

/// The findings are those of the rules and no others.
pub(super) proof fn lemma_found(input: DiagnosticInput, today: Option<i64>, d: DiagnosisModel)
    ensures
        findings(input, today).contains(d) <==> {
            let h = input.hostname@;
            ||| resolution(h, input.dns@).contains(d)
            ||| connectivity(h, input.tcp@).contains(d)
            ||| families(h, input.tcp@).contains(d)
            ||| tls_layer(input.tls@, input.tcp@).contains(d)
            ||| lifetimes(input.tls@, today).contains(d)
            ||| coverage(input.tls@).contains(d)
            ||| http_layer(h, input.http@, input.tcp@).contains(d)
            ||| redirection(h, input.http@).contains(d)
            ||| truncation(h, input.http@).contains(d)
            ||| quic_path(h, input.http@).contains(d)
            ||| flapping(input.probes@).contains(d)
            ||| suspicion(h, input_signals(input)).contains(d)
        },
{
    let h = input.hostname@;
    let p1 = resolution(h, input.dns@) + connectivity(h, input.tcp@);
    let p2 = p1 + families(h, input.tcp@);
    let p3 = p2 + tls_layer(input.tls@, input.tcp@);
    let p4 = p3 + lifetimes(input.tls@, today);
    let p5 = p4 + coverage(input.tls@);
    let p6 = p5 + http_layer(h, input.http@, input.tcp@);
    let p7 = p6 + redirection(h, input.http@);
    let p8 = p7 + truncation(h, input.http@);
    let p9 = p8 + quic_path(h, input.http@);
    let p10 = p9 + flapping(input.probes@);
    lemma_joined(resolution(h, input.dns@), connectivity(h, input.tcp@), d);
    lemma_joined(p1, families(h, input.tcp@), d);
    lemma_joined(p2, tls_layer(input.tls@, input.tcp@), d);
    lemma_joined(p3, lifetimes(input.tls@, today), d);
    lemma_joined(p4, coverage(input.tls@), d);
    lemma_joined(p5, http_layer(h, input.http@, input.tcp@), d);
    lemma_joined(p6, redirection(h, input.http@), d);
    lemma_joined(p7, truncation(h, input.http@), d);
    lemma_joined(p8, quic_path(h, input.http@), d);
    lemma_joined(p9, flapping(input.probes@), d);
    lemma_joined(p10, suspicion(h, input_signals(input)), d);
}

/// Certificate lifetimes are findings on certificates.
proof fn lemma_lifetimes_category(tls: Seq<TlsObservation>, today: Option<i64>, d: DiagnosisModel)
    requires
        lifetimes(tls, today).contains(d),
    ensures
        d.category == DiagnosticCategory::Certificate,
    decreases tls.len(),
{
    if tls.len() > 0 {
        match tls.last().certificate {
            None => lemma_lifetimes_category(tls.drop_last(), today, d),
            Some(cert) => {
                let front = lifetimes(tls.drop_last(), today);
                let start = start_findings(tls.last().sni@, cert, today);
                let end = end_findings(tls.last().sni@, cert, today);
                lemma_joined(front, start, d);
                lemma_joined(front + start, end, d);
                if front.contains(d) {
                    lemma_lifetimes_category(tls.drop_last(), today, d);
                }
            },
        }
    }
}

/// Certificate names are findings on certificates.
proof fn lemma_coverage_category(tls: Seq<TlsObservation>, d: DiagnosisModel)
    requires
        coverage(tls).contains(d),
    ensures
        d.category == DiagnosticCategory::Certificate,
    decreases tls.len(),
{
    if tls.len() > 0 {
        match tls.last().certificate {
            None => lemma_coverage_category(tls.drop_last(), d),
            Some(cert) => {
                let front = coverage(tls.drop_last());
                lemma_joined(front, coverage_of(tls.last().sni@, cert), d);
                if front.contains(d) {
                    lemma_coverage_category(tls.drop_last(), d);
                }
            },
        }
    }
}

/// Which rule a diagnosis comes from shows in its category.
pub(super) proof fn lemma_categories(input: DiagnosticInput, today: Option<i64>, d: DiagnosisModel)
    ensures
        ({
            let h = input.hostname@;
            let c = d.category;
            &&& resolution(h, input.dns@).contains(d) ==> c == DiagnosticCategory::Dns
            &&& connectivity(h, input.tcp@).contains(d) ==> c == DiagnosticCategory::TotalConnectivityLoss || c
                == DiagnosticCategory::PartialConnectivity
            &&& families(h, input.tcp@).contains(d) ==> c == DiagnosticCategory::AddressFamily
            &&& tls_layer(input.tls@, input.tcp@).contains(d) ==> c == DiagnosticCategory::Tls
            &&& lifetimes(input.tls@, today).contains(d) ==> c == DiagnosticCategory::Certificate
            &&& coverage(input.tls@).contains(d) ==> c == DiagnosticCategory::Certificate
            &&& http_layer(h, input.http@, input.tcp@).contains(d) ==> c == DiagnosticCategory::Http
            &&& redirection(h, input.http@).contains(d) ==> c == DiagnosticCategory::Http
            &&& truncation(h, input.http@).contains(d) ==> c == DiagnosticCategory::Http
            &&& quic_path(h, input.http@).contains(d) ==> c == DiagnosticCategory::Quic
            &&& flapping(input.probes@).contains(d) ==> c == DiagnosticCategory::Intermittent
            &&& suspicion(h, input_signals(input)).contains(d) ==> c == DiagnosticCategory::PossibleNetworkFiltering
        }),
{
    if lifetimes(input.tls@, today).contains(d) {
        lemma_lifetimes_category(input.tls@, today, d);
    }
    if coverage(input.tls@).contains(d) {
        lemma_coverage_category(input.tls@, d);
    }
    if flapping(input.probes@).contains(d) {
        lemma_flapping(input.probes@, d);
    }
}

/// A category that only some rules give is raised if one of them gives it.
proof fn lemma_raised(input: DiagnosticInput, today: Option<i64>, c: DiagnosticCategory)
    requires
        c != DiagnosticCategory::Healthy,
    ensures
        raised(diagnoses(input, today), c) <==> exists|d: DiagnosisModel| #[trigger]
            findings(input, today).contains(d) && d.category == c,
{
    let s = diagnoses(input, today);
    let f = findings(input, today);
    if raised(s, c) {
        let i = choose|i: int| 0 <= i < s.len() && (#[trigger] s[i]).category == c;
        if f.len() > 0 {
            assert(f.contains(s[i]));
        }
    }
    if exists|d: DiagnosisModel| #[trigger] f.contains(d) && d.category == c {
        let d = choose|d: DiagnosisModel| #[trigger] f.contains(d) && d.category == c;
        let i = choose|i: int| 0 <= i < f.len() && f[i] == d;
        assert(s[i].category == c);
    }
}

// --- repeated probes ---------------------------------------------------------------------

/// Whether a diagnosis says that a destination answers only some of the time.
pub open spec fn calls_intermittent(d: DiagnosisModel, p: ProbeResult) -> bool {
    &&& d.category == DiagnosticCategory::Intermittent
    &&& d.severity == Severity::Medium
    &&& d.confidence == Confidence::High
    &&& d.summary == "Intermittent connectivity to "@ + p.destination.text() + " ("@ + p.success_rate.percent()
        + "% success)"@
    &&& d.evidence.len() == 2
    &&& d.evidence[0] == dec(p.successes as nat) + "/"@ + dec(p.attempts as nat) + " success"@
}

/// What repeated probes give, by probe.
pub(super) proof fn lemma_flapping(probes: Seq<ProbeResult>, d: DiagnosisModel)
    ensures
        flapping(probes).contains(d) ==> d.category == DiagnosticCategory::Intermittent && exists|i: int|
            0 <= i < probes.len() && (#[trigger] probes[i]).attempts > 1 && probes[i].successes > 0
                && probes[i].failures > 0 && calls_intermittent(d, probes[i]),
    decreases probes.len(),
{
    if probes.len() > 0 && flapping(probes).contains(d) {
        let front = probes.drop_last();
        lemma_flapping(front, d);
        let k = choose|k: int| 0 <= k < flapping(probes).len() && flapping(probes)[k] == d;
        if k < flapping(front).len() {
            assert(flapping(front)[k] == d);
            let i = choose|i: int|
                0 <= i < front.len() && (#[trigger] front[i]).attempts > 1 && front[i].successes > 0
                    && front[i].failures > 0 && calls_intermittent(d, front[i]);
            assert(probes[i].attempts > 1);
        } else {
            assert(probes[probes.len() - 1].attempts > 1);
        }
    }
}

/// A probe result with successes and failures gives a diagnosis.
proof fn lemma_flapping_finds(probes: Seq<ProbeResult>, i: int)
    requires
        0 <= i < probes.len(),
        probes[i].attempts > 1,
        probes[i].successes > 0,
        probes[i].failures > 0,
    ensures
        exists|d: DiagnosisModel| #[trigger] flapping(probes).contains(d) && calls_intermittent(d, probes[i]),
    decreases probes.len(),
{
    let all = flapping(probes);
    if i == probes.len() - 1 {
        let d = all.last();
        assert(all[all.len() - 1] == d);
        assert(all.contains(d));
        assert(calls_intermittent(d, probes[i]));
    } else {
        let front = probes.drop_last();
        lemma_flapping_finds(front, i);
        let d = choose|d: DiagnosisModel| #[trigger] flapping(front).contains(d) && calls_intermittent(d, front[i]);
        let k = choose|k: int| 0 <= k < flapping(front).len() && flapping(front)[k] == d;
        assert(all[k] == d);
        assert(all.contains(d));
    }
}

/// Every probe result with more than one attempt, a success and a failure gives
/// an intermittency diagnosis that names its destination, however many of the
/// attempts failed; so the host is not called healthy.
pub proof fn lemma_mixed_probe_is_intermittent(input: DiagnosticInput, today: Option<i64>, i: int)
    requires
        0 <= i < input.probes@.len(),
        input.probes@[i].attempts > 1,
        input.probes@[i].successes > 0,
        input.probes@[i].failures > 0,
    ensures
        exists|k: int|
            0 <= k < diagnoses(input, today).len() && calls_intermittent(
                #[trigger] diagnoses(input, today)[k],
                input.probes@[i],
            ),
        !raised(diagnoses(input, today), DiagnosticCategory::Healthy),
{
    lemma_flapping_finds(input.probes@, i);
    let d = choose|d: DiagnosisModel| #[trigger]
        flapping(input.probes@).contains(d) && calls_intermittent(d, input.probes@[i]);
    lemma_found(input, today, d);
    let f = findings(input, today);
    let k = choose|k: int| 0 <= k < f.len() && f[k] == d;
    assert(diagnoses(input, today)[k] == d);
    super::lemma_healthy_stands_alone(input, today);
}

/// An intermittency diagnosis is about a probe result with more than one
/// attempt, a success and a failure.
pub proof fn lemma_intermittent_needs_a_mixed_probe(input: DiagnosticInput, today: Option<i64>, k: int)
    requires
        0 <= k < diagnoses(input, today).len(),
        diagnoses(input, today)[k].category == DiagnosticCategory::Intermittent,
    ensures
        exists|i: int|
            0 <= i < input.probes@.len() && (#[trigger] input.probes@[i]).attempts > 1 && input.probes@[i].successes > 0
                && input.probes@[i].failures > 0 && calls_intermittent(diagnoses(input, today)[k], input.probes@[i]),
{
    let d = diagnoses(input, today)[k];
    assert(findings(input, today).contains(d));
    lemma_found(input, today, d);
    lemma_categories(input, today, d);
    lemma_flapping(input.probes@, d);
}

// --- connectivity ------------------------------------------------------------------------

/// Whether a connect failed for another reason than a missing local route.
pub open spec fn failed_on_the_way(o: TcpObservation) -> bool {
    !o.success && (o.failure matches Some(f) ==> f.kind != FailureKind::NetworkUnreachable && f.kind
        != FailureKind::HostUnreachable)
}

/// The destinations with an outcome are those observed with it.
proof fn lemma_destinations(tcp: Seq<TcpObservation>, success: bool)
    ensures
        destinations(tcp, success).len() == tcp.filter(|o: TcpObservation| o.success == success).len(),
        destinations(tcp, success).len() > 0 <==> exists|i: int|
            0 <= i < tcp.len() && (#[trigger] tcp[i]).success == success,
    decreases tcp.len(),
{
    reveal(Seq::filter);
    if tcp.len() > 0 {
        let front = tcp.drop_last();
        lemma_destinations(front, success);
        if tcp.last().success == success {
            assert(tcp[tcp.len() - 1].success == success);
        }
        if exists|i: int| 0 <= i < front.len() && (#[trigger] front[i]).success == success {
            let i = choose|i: int| 0 <= i < front.len() && (#[trigger] front[i]).success == success;
            assert(tcp[i].success == success);
        }
        if tcp.last().success != success && exists|i: int|
            0 <= i < tcp.len() && (#[trigger] tcp[i]).success == success {
            let i = choose|i: int| 0 <= i < tcp.len() && (#[trigger] tcp[i]).success == success;
            assert(front[i].success == success);
        }
    }
}

/// Total loss is diagnosed exactly when no connect succeeded and one failed for
/// another reason than a missing local route; partial reachability exactly when
/// one did although another succeeded.
pub proof fn lemma_connectivity_loss(input: DiagnosticInput, today: Option<i64>)
    ensures
        raised(diagnoses(input, today), DiagnosticCategory::TotalConnectivityLoss) <==> (exists|i: int|
            0 <= i < input.tcp@.len() && failed_on_the_way(#[trigger] input.tcp@[i])) && (forall|i: int|
            0 <= i < input.tcp@.len() ==> !(#[trigger] input.tcp@[i]).success),
        raised(diagnoses(input, today), DiagnosticCategory::PartialConnectivity) <==> (exists|i: int|
            0 <= i < input.tcp@.len() && failed_on_the_way(#[trigger] input.tcp@[i])) && (exists|i: int|
            0 <= i < input.tcp@.len() && (#[trigger] input.tcp@[i]).success),
{
    let tcp = input.tcp@;
    let s = connectivity(input.hostname@, tcp);
    lemma_destinations(tcp, true);
    lemma_destinations(tcp, false);
    lemma_raised(input, today, DiagnosticCategory::TotalConnectivityLoss);
    lemma_raised(input, today, DiagnosticCategory::PartialConnectivity);
    assert forall|d: DiagnosisModel| #[trigger] findings(input, today).contains(d) && (d.category
        == DiagnosticCategory::TotalConnectivityLoss || d.category == DiagnosticCategory::PartialConnectivity) implies s.contains(
        d,
    ) by {
        lemma_found(input, today, d);
        lemma_categories(input, today, d);
    }
    if s.len() > 0 {
        assert(s.contains(s[0]));
        lemma_found(input, today, s[0]);
    }
    if exists|i: int| 0 <= i < tcp.len() && failed_on_the_way(#[trigger] tcp[i]) {
        let i = choose|i: int| 0 <= i < tcp.len() && failed_on_the_way(#[trigger] tcp[i]);
        assert(!tcp[i].success);
        assert(!all_local(tcp));
    } else {
        assert forall|i: int| 0 <= i < tcp.len() && !(#[trigger] tcp[i]).success implies (tcp[i].failure matches Some(f)
            && is_local_unreachability(f.kind)) by {
            assert(!failed_on_the_way(tcp[i]));
        }
        assert(all_local(tcp));
    }
}

/// A connectivity diagnosis is of high severity when it is total and of medium
/// severity when it is partial, and the confidence is high exactly when more
/// than one connect failed.
#[verifier::rlimit(60)]
pub proof fn lemma_connectivity_weight(input: DiagnosticInput, today: Option<i64>, k: int)
    requires
        0 <= k < diagnoses(input, today).len(),
        diagnoses(input, today)[k].category == DiagnosticCategory::TotalConnectivityLoss || diagnoses(
            input,
            today,
        )[k].category == DiagnosticCategory::PartialConnectivity,
    ensures
        ({
            let d = diagnoses(input, today)[k];
            let failing = input.tcp@.filter(|o: TcpObservation| o.success == false).len();
            &&& d.category == DiagnosticCategory::TotalConnectivityLoss ==> d.severity == Severity::High
            &&& d.category == DiagnosticCategory::PartialConnectivity ==> d.severity == Severity::Medium
            &&& d.confidence == (if failing >= 2 {
                Confidence::High
            } else {
                Confidence::Medium
            })
        }),
{
    let d = diagnoses(input, today)[k];
    assert(findings(input, today).contains(d));
    lemma_found(input, today, d);
    lemma_categories(input, today, d);
    lemma_destinations(input.tcp@, false);
}

/// An address-family diagnosis is given exactly when both families were tried
/// and only one connected, or when one family alone was tried and every attempt
/// lacked a local route.
pub proof fn lemma_address_family(input: DiagnosticInput, today: Option<i64>)
    ensures
        raised(diagnoses(input, today), DiagnosticCategory::AddressFamily) <==> ({
            let tcp = input.tcp@;
            let v4 = exists|i: int| 0 <= i < tcp.len() && (#[trigger] tcp[i]).destination.ip is V4;
            let v6 = exists|i: int| 0 <= i < tcp.len() && (#[trigger] tcp[i]).destination.ip is V6;
            let v4_ok = exists|i: int| 0 <= i < tcp.len() && (#[trigger] tcp[i]).destination.ip is V4 && tcp[i].success;
            let v6_ok = exists|i: int| 0 <= i < tcp.len() && (#[trigger] tcp[i]).destination.ip is V6 && tcp[i].success;
            if v4 && v6 {
                v4_ok != v6_ok
            } else {
                tcp.len() > 0 && forall|i: int|
                    0 <= i < tcp.len() ==> !(#[trigger] tcp[i]).success && (tcp[i].failure matches Some(f) && (f.kind
                        == FailureKind::NetworkUnreachable || f.kind == FailureKind::HostUnreachable))
            }
        }),
{
    let tcp = input.tcp@;
    let s = families(input.hostname@, tcp);
    lemma_raised(input, today, DiagnosticCategory::AddressFamily);
    assert forall|d: DiagnosisModel| #[trigger] findings(input, today).contains(d) && d.category
        == DiagnosticCategory::AddressFamily implies s.contains(d) by {
        lemma_found(input, today, d);
        lemma_categories(input, today, d);
    }
    if s.len() > 0 {
        assert(s.contains(s[0]));
        lemma_found(input, today, s[0]);
    }
    lemma_family(tcp, true);
    lemma_family(tcp, false);
    if tcp.len() > 0 {
        assert(in_family(tcp[0], true) || in_family(tcp[0], false));
        assert(tcp[0].destination.ip is V4 || tcp[0].destination.ip is V6);
    }
    assert(tcp.len() == 0 ==> family_result(tcp, true) is None && family_result(tcp, false) is None);
    let alone = family_result(tcp, true) is None || family_result(tcp, false) is None;
    if alone && tcp.len() > 0 && s.len() > 0 {
        assert(all_local(tcp));
        assert forall|i: int| 0 <= i < tcp.len() implies !(#[trigger] tcp[i]).success && (tcp[i].failure matches Some(f)
            && (f.kind == FailureKind::NetworkUnreachable || f.kind == FailureKind::HostUnreachable)) by {
            assert(in_family(tcp[i], true) || in_family(tcp[i], false));
        }
    }
    if tcp.len() > 0 && forall|i: int|
        0 <= i < tcp.len() ==> !(#[trigger] tcp[i]).success && (tcp[i].failure matches Some(f) && (f.kind
            == FailureKind::NetworkUnreachable || f.kind == FailureKind::HostUnreachable)) {
        assert(all_local(tcp));
    }
}

/// The result of a family, by its observations.
proof fn lemma_family(tcp: Seq<TcpObservation>, ipv4: bool)
    ensures
        family_result(tcp, ipv4) is Some <==> exists|i: int|
            0 <= i < tcp.len() && ((#[trigger] tcp[i]).destination.ip is V4) == ipv4,
        family_result(tcp, ipv4) == Some(true) <==> exists|i: int|
            0 <= i < tcp.len() && ((#[trigger] tcp[i]).destination.ip is V4) == ipv4 && tcp[i].success,
{
    if exists|i: int| 0 <= i < tcp.len() && ((#[trigger] tcp[i]).destination.ip is V4) == ipv4 {
        let i = choose|i: int| 0 <= i < tcp.len() && ((#[trigger] tcp[i]).destination.ip is V4) == ipv4;
        assert(in_family(tcp[i], ipv4));
    }
    if exists|i: int| 0 <= i < tcp.len() && ((#[trigger] tcp[i]).destination.ip is V4) == ipv4 && tcp[i].success {
        let i = choose|i: int|
            0 <= i < tcp.len() && ((#[trigger] tcp[i]).destination.ip is V4) == ipv4 && tcp[i].success;
        assert(in_family(tcp[i], ipv4) && tcp[i].success);
    }
}

// --- TLS and HTTP ------------------------------------------------------------------------

/// The handshakes that failed alone.
proof fn lemma_tls_only(tls: Seq<TlsObservation>, tcp: Seq<TcpObservation>)
    ensures
        tls_only_failures(tls, tcp).len() > 0 <==> exists|i: int, j: int|
            0 <= i < tls.len() && 0 <= j < tcp.len() && !(#[trigger] tls[i]).success && (#[trigger] tcp[j]).success
                && tcp[j].destination == tls[i].destination,
    decreases tls.len(),
{
    if tls.len() > 0 {
        let front = tls.drop_last();
        let last = tls.len() - 1;
        lemma_tls_only(front, tcp);
        if tls_only_failures(front, tcp).len() > 0 {
            let (i, j) = choose|i: int, j: int|
                0 <= i < front.len() && 0 <= j < tcp.len() && !(#[trigger] front[i]).success && (#[trigger] tcp[
                    j]).success && tcp[j].destination == front[i].destination;
            assert(!tls[i].success && tcp[j].success);
        }
        if !tls[last].success && connected(tcp, tls[last].destination) {
            let j = choose|j: int| 0 <= j < tcp.len() && (#[trigger] tcp[j]).destination == tls[last].destination
                && tcp[j].success;
            assert(!tls[last].success && tcp[j].success);
        }
        if exists|i: int, j: int|
            0 <= i < tls.len() && 0 <= j < tcp.len() && !(#[trigger] tls[i]).success && (#[trigger] tcp[j]).success
                && tcp[j].destination == tls[i].destination {
            let (i, j) = choose|i: int, j: int|
                0 <= i < tls.len() && 0 <= j < tcp.len() && !(#[trigger] tls[i]).success && (#[trigger] tcp[j]).success
                    && tcp[j].destination == tls[i].destination;
            assert(tcp[j].destination == tls[i].destination);
            assert(connected(tcp, tls[i].destination));
            if i < last {
                assert(!front[i].success && tcp[j].success);
            }
        }
    }
}

/// A TLS diagnosis is given exactly when a handshake failed with a destination
/// that a connect reached.
pub proof fn lemma_tls_layer(input: DiagnosticInput, today: Option<i64>)
    ensures
        raised(diagnoses(input, today), DiagnosticCategory::Tls) <==> exists|i: int, j: int|
            0 <= i < input.tls@.len() && 0 <= j < input.tcp@.len() && !(#[trigger] input.tls@[i]).success && (
            #[trigger] input.tcp@[j]).success && input.tcp@[j].destination == input.tls@[i].destination,
{
    let s = tls_layer(input.tls@, input.tcp@);
    lemma_tls_only(input.tls@, input.tcp@);
    lemma_raised(input, today, DiagnosticCategory::Tls);
    assert forall|d: DiagnosisModel| #[trigger] findings(input, today).contains(d) && d.category
        == DiagnosticCategory::Tls implies s.contains(d) by {
        lemma_found(input, today, d);
        lemma_categories(input, today, d);
    }
    if s.len() > 0 {
        assert(s.contains(s[0]));
        lemma_found(input, today, s[0]);
    }
}

/// Whether an exchange failed in HTTP itself, on a destination that was not
/// already out of reach, or ended in a status that is neither a success nor a
/// redirect.
pub open spec fn failed_in_http(h: HttpObservation, tcp: Seq<TcpObservation>) -> bool {
    let quic = h.protocol matches Some(p) && p@ == "HTTP/3"@;
    let own = h.failure matches Some(e) && if quic {
        e.kind == FailureKind::Http || e.kind == FailureKind::Protocol
    } else {
        e.kind != FailureKind::Quic && e.kind != FailureKind::TlsHandshake && e.kind != FailureKind::Certificate
    };
    let unreached = exists|j: int|
        0 <= j < tcp.len() && (#[trigger] tcp[j]).destination == h.destination && !tcp[j].success;
    (own && !unreached) || (h.status matches Some(s) && (s < 200 || s >= 400))
}

/// Whether an exchange was redirected or stalled.
pub open spec fn redirected_or_stalled(h: HttpObservation) -> bool {
    h.failure is None && (h.status matches Some(s) && (300 <= s < 400 || h.body_bytes is None))
}

/// The HTTP findings, by exchange.
proof fn lemma_http_lists(http: Seq<HttpObservation>, tcp: Seq<TcpObservation>)
    ensures
        layer_failures(http, tcp).len() > 0 <==> exists|i: int| 0 <= i < http.len() && failed_in_http(
            #[trigger] http[i],
            tcp,
        ),
        redirect_list(http).len() > 0 || stalled_list(http).len() > 0 <==> exists|i: int|
            0 <= i < http.len() && redirected_or_stalled(#[trigger] http[i]),
    decreases http.len(),
{
    if http.len() > 0 {
        let front = http.drop_last();
        let last = http.len() - 1;
        lemma_http_lists(front, tcp);
        assert(layer_failed(http[last], tcp) == failed_in_http(http[last], tcp));
        if layer_failures(front, tcp).len() > 0 {
            let i = choose|i: int| 0 <= i < front.len() && failed_in_http(#[trigger] front[i], tcp);
            assert(failed_in_http(http[i], tcp));
        }
        if exists|i: int| 0 <= i < http.len() && failed_in_http(#[trigger] http[i], tcp) {
            let i = choose|i: int| 0 <= i < http.len() && failed_in_http(#[trigger] http[i], tcp);
            if i < last {
                assert(failed_in_http(front[i], tcp));
            }
        }
        assert((redirects(http[last]) || stalled(http[last])) == redirected_or_stalled(http[last]));
        if redirect_list(front).len() > 0 || stalled_list(front).len() > 0 {
            let i = choose|i: int| 0 <= i < front.len() && redirected_or_stalled(#[trigger] front[i]);
            assert(redirected_or_stalled(http[i]));
        }
        if exists|i: int| 0 <= i < http.len() && redirected_or_stalled(#[trigger] http[i]) {
            let i = choose|i: int| 0 <= i < http.len() && redirected_or_stalled(#[trigger] http[i]);
            if i < last {
                assert(redirected_or_stalled(front[i]));
            }
        }
    }
}

/// An HTTP diagnosis is given exactly when an exchange failed in HTTP itself,
/// ended in an error status, was redirected, or stalled in its body.
pub proof fn lemma_http_layer(input: DiagnosticInput, today: Option<i64>)
    ensures
        raised(diagnoses(input, today), DiagnosticCategory::Http) <==> exists|i: int|
            0 <= i < input.http@.len() && (failed_in_http(#[trigger] input.http@[i], input.tcp@)
                || redirected_or_stalled(input.http@[i])),
{
    let h = input.hostname@;
    let a = http_layer(h, input.http@, input.tcp@);
    let b = redirection(h, input.http@);
    let c = truncation(h, input.http@);
    lemma_http_lists(input.http@, input.tcp@);
    lemma_raised(input, today, DiagnosticCategory::Http);
    assert forall|d: DiagnosisModel| #[trigger] findings(input, today).contains(d) && d.category
        == DiagnosticCategory::Http implies a.contains(d) || b.contains(d) || c.contains(d) by {
        lemma_found(input, today, d);
        lemma_categories(input, today, d);
    }
    if a.len() > 0 {
        assert(a.contains(a[0]));
        lemma_found(input, today, a[0]);
    }
    if b.len() > 0 {
        assert(b.contains(b[0]));
        lemma_found(input, today, b[0]);
    }
    if c.len() > 0 {
        assert(c.contains(c[0]));
        lemma_found(input, today, c[0]);
    }
}

/// A QUIC diagnosis is given exactly when HTTP/3 was tried and never completed
/// while some request completed with a status below 400.
pub proof fn lemma_quic_path(input: DiagnosticInput, today: Option<i64>)
    ensures
        raised(diagnoses(input, today), DiagnosticCategory::Quic) <==> ({
            let http = input.http@;
            &&& exists|i: int|
                0 <= i < http.len() && ((#[trigger] http[i]).protocol matches Some(p) && p@ == "HTTP/3"@)
            &&& forall|i: int|
                0 <= i < http.len() && ((#[trigger] http[i]).protocol matches Some(p) && p@ == "HTTP/3"@)
                    ==> http[i].failure is Some
            &&& exists|i: int|
                0 <= i < http.len() && (#[trigger] http[i]).failure is None && (http[i].status matches Some(s) && s
                    < 400)
        }),
{
    let http = input.http@;
    let s = quic_path(input.hostname@, http);
    lemma_raised(input, today, DiagnosticCategory::Quic);
    assert forall|d: DiagnosisModel| #[trigger] findings(input, today).contains(d) && d.category
        == DiagnosticCategory::Quic implies s.contains(d) by {
        lemma_found(input, today, d);
        lemma_categories(input, today, d);
    }
    if s.len() > 0 {
        assert(s.contains(s[0]));
        lemma_found(input, today, s[0]);
    }
    assert forall|i: int| 0 <= i < http.len() implies is_http3(#[trigger] http[i]) == (http[i].protocol matches Some(p)
        && p@ == "HTTP/3"@) && served(http[i]) == (http[i].failure is None && (http[i].status matches Some(s) && s
        < 400)) by {}
    if exists|i: int| 0 <= i < http.len() && ((#[trigger] http[i]).protocol matches Some(p) && p@ == "HTTP/3"@) {
        let i = choose|i: int| 0 <= i < http.len() && ((#[trigger] http[i]).protocol matches Some(p) && p@ == "HTTP/3"@);
        assert(is_http3(http[i]));
    }
    if exists|i: int|
        0 <= i < http.len() && (#[trigger] http[i]).failure is None && (http[i].status matches Some(s) && s < 400) {
        let i = choose|i: int|
            0 <= i < http.len() && (#[trigger] http[i]).failure is None && (http[i].status matches Some(s) && s < 400);
        assert(served(http[i]));
    }
}

// --- certificates ------------------------------------------------------------------------

/// Whether a served certificate calls for attention on a day: it starts later,
/// it has ended or ends within thirty days, it lists no names, or its names do
/// not cover the presented one.
pub open spec fn needs_attention(o: TlsObservation, today: Option<i64>) -> bool {
    o.certificate matches Some(cert) && {
        ||| cert.not_before_utc matches Some(t) && (days_until(t@, today) matches Some(n) && n > 0)
        ||| cert.not_after_utc matches Some(t) && (days_until(t@, today) matches Some(n) && n <= 30)
        ||| cert.sans@.len() == 0
        ||| !covers(o.sni@, cert.sans@)
    }
}

/// The certificate findings, by handshake.
proof fn lemma_certificate_lists(tls: Seq<TlsObservation>, today: Option<i64>)
    ensures
        lifetimes(tls, today).len() > 0 || coverage(tls).len() > 0 <==> exists|i: int|
            0 <= i < tls.len() && needs_attention(#[trigger] tls[i], today),
    decreases tls.len(),
{
    if tls.len() > 0 {
        let front = tls.drop_last();
        let last = tls.len() - 1;
        lemma_certificate_lists(front, today);
        if exists|i: int| 0 <= i < front.len() && needs_attention(#[trigger] front[i], today) {
            let i = choose|i: int| 0 <= i < front.len() && needs_attention(#[trigger] front[i], today);
            assert(needs_attention(tls[i], today));
        }
        if exists|i: int| 0 <= i < tls.len() && needs_attention(#[trigger] tls[i], today) {
            let i = choose|i: int| 0 <= i < tls.len() && needs_attention(#[trigger] tls[i], today);
            if i < last {
                assert(needs_attention(front[i], today));
            }
        }
        match tls[last].certificate {
            None => {
                assert(!needs_attention(tls[last], today));
            },
            Some(cert) => {
                let a = start_findings(tls[last].sni@, cert, today);
                let b = end_findings(tls[last].sni@, cert, today);
                let c = coverage_of(tls[last].sni@, cert);
                assert((a.len() > 0 || b.len() > 0 || c.len() > 0) == needs_attention(tls[last], today));
                assert(lifetimes(tls, today).len() == lifetimes(front, today).len() + a.len() + b.len());
                assert(coverage(tls).len() == coverage(front).len() + c.len());
            },
        }
    }
}

/// A certificate diagnosis is given exactly when a served certificate calls for
/// attention.
pub proof fn lemma_certificates(input: DiagnosticInput, today: Option<i64>)
    ensures
        raised(diagnoses(input, today), DiagnosticCategory::Certificate) <==> exists|i: int|
            0 <= i < input.tls@.len() && needs_attention(#[trigger] input.tls@[i], today),
{
    let a = lifetimes(input.tls@, today);
    let b = coverage(input.tls@);
    lemma_certificate_lists(input.tls@, today);
    lemma_raised(input, today, DiagnosticCategory::Certificate);
    assert forall|d: DiagnosisModel| #[trigger] findings(input, today).contains(d) && d.category
        == DiagnosticCategory::Certificate implies a.contains(d) || b.contains(d) by {
        lemma_found(input, today, d);
        lemma_categories(input, today, d);
    }
    if a.len() > 0 {
        assert(a.contains(a[0]));
        lemma_found(input, today, a[0]);
        lemma_categories(input, today, a[0]);
    }
    if b.len() > 0 {
        assert(b.contains(b[0]));
        lemma_found(input, today, b[0]);
        lemma_categories(input, today, b[0]);
    }
}

/// A certificate that ended is reported with high confidence and medium severity,
/// one that ends within thirty days with medium confidence and low severity, and
/// one that lasts longer is not reported for its end.
pub proof fn lemma_certificate_end(sni: Seq<char>, cert: CertificateSummary, today: Option<i64>)
    ensures
        end_findings(sni, cert, today).len() <= 1,
        cert.not_after_utc is None ==> end_findings(sni, cert, today).len() == 0,
        cert.not_after_utc matches Some(t) ==> (match days_until(t@, today) {
            None => end_findings(sni, cert, today).len() == 0,
            Some(n) => {
                &&& end_findings(sni, cert, today).len() == 1 <==> n <= 30
                &&& n < 0 ==> end_findings(sni, cert, today)[0].severity == Severity::Medium && end_findings(
                    sni,
                    cert,
                    today,
                )[0].confidence == Confidence::High
                &&& 0 <= n <= 30 ==> end_findings(sni, cert, today)[0].severity == Severity::Low && end_findings(
                    sni,
                    cert,
                    today,
                )[0].confidence == Confidence::Medium
            },
        }),
{
}

// --- resolution --------------------------------------------------------------------------

/// Whether a resolver answered with an address.
pub open spec fn offers(s: Seq<DnsObservation>, r: ResolverModel, a: IpAddr) -> bool {
    exists|i: int, j: int|
        #![trigger s[i].records@[j]]
        0 <= i < s.len() && s[i].error is None && s[i].resolver.deep_view() == r && 0 <= j < s[i].records@.len()
            && match s[i].records@[j].deep_view() {
            DnsRecordModel::A(ip) => a == IpAddr::V4(ip),
            DnsRecordModel::Aaaa(ip) => a == IpAddr::V6(ip),
            _ => false,
        }
}

/// The addresses of a resolver are those it answered with.
proof fn lemma_offers(s: Seq<DnsObservation>, r: ResolverModel, a: IpAddr)
    ensures
        addresses_from(s, r).contains(a) <==> offers(s, r, a),
{
    if addresses_from(s, r).contains(a) {
        let i = choose|i: int|
            0 <= i < s.len() && answered(#[trigger] s[i]) && s[i].resolver.deep_view() == r && gives(s[i], a);
        let j = choose|j: int|
            0 <= j < s[i].records@.len() && record_address((#[trigger] s[i].records@[j]).deep_view()) == Some(a);
        assert(s[i].records@[j] == s[i].records@[j]);
    }
    if offers(s, r, a) {
        let (i, j) = choose|i: int, j: int|
            #![trigger s[i].records@[j]]
            0 <= i < s.len() && s[i].error is None && s[i].resolver.deep_view() == r && 0 <= j < s[i].records@.len()
                && match s[i].records@[j].deep_view() {
                DnsRecordModel::A(ip) => a == IpAddr::V4(ip),
                DnsRecordModel::Aaaa(ip) => a == IpAddr::V6(ip),
                _ => false,
            };
        assert(record_address(s[i].records@[j].deep_view()) == Some(a));
        assert(gives(s[i], a));
        assert(answered(s[i]));
    }
}

/// Whether a set is that of an answering observation.
spec fn comes_from(all: Seq<DnsObservation>, part: Seq<DnsObservation>, set: Set<IpAddr>) -> bool {
    exists|i: int|
        0 <= i < part.len() && answered(#[trigger] part[i]) && set == addresses_from(all, part[i].resolver.deep_view())
}

/// The address sets are those of the answering observations.
proof fn lemma_answer_sets(all: Seq<DnsObservation>, part: Seq<DnsObservation>, set: Set<IpAddr>)
    ensures
        answer_sets(all, part).contains(set) <==> comes_from(all, part, set),
    decreases part.len(),
{
    let sets = answer_sets(all, part);
    if part.len() > 0 {
        let front = part.drop_last();
        let last = part.len() - 1;
        let before = answer_sets(all, front);
        lemma_answer_sets(all, front, set);
        if sets.contains(set) {
            let k = choose|k: int| 0 <= k < sets.len() && sets[k] == set;
            if k < before.len() {
                assert(before[k] == set);
                let i = choose|i: int|
                    0 <= i < front.len() && answered(#[trigger] front[i]) && set == addresses_from(
                        all,
                        front[i].resolver.deep_view(),
                    );
                assert(answered(part[i]));
            } else {
                assert(answered(part[last]));
            }
        }
        if comes_from(all, part, set) {
            let i = choose|i: int|
                0 <= i < part.len() && answered(#[trigger] part[i]) && set == addresses_from(
                    all,
                    part[i].resolver.deep_view(),
                );
            if i < last {
                assert(answered(front[i]));
                let k = choose|k: int| 0 <= k < before.len() && before[k] == set;
                assert(sets[k] == set);
            } else {
                assert(sets[before.len() as int] == set);
            }
        }
    }
}

/// Resolvers disagree exactly when two of them answered with records and one of
/// them gave an address that the other did not give.
pub proof fn lemma_disagreement(s: Seq<DnsObservation>)
    ensures
        disagreement(s) <==> exists|i: int, j: int, a: IpAddr|
            #![trigger offers(s, s[i].resolver.deep_view(), a), s[j]]
            0 <= i < s.len() && 0 <= j < s.len() && s[i].error is None && s[i].records@.len() > 0 && s[j].error is None
                && s[j].records@.len() > 0 && offers(s, s[i].resolver.deep_view(), a) && !offers(
                s,
                s[j].resolver.deep_view(),
                a,
            ),
{
    let sets = answer_sets(s, s);
    lemma_first_seen_is_each_once(sets);
    if disagreement(s) {
        let (x, y) = choose|x: int, y: int|
            0 <= x < sets.len() && 0 <= y < sets.len() && #[trigger] sets[x] != #[trigger] sets[y];
        lemma_answer_sets(s, s, sets[x]);
        lemma_answer_sets(s, s, sets[y]);
        let i = choose|i: int|
            0 <= i < s.len() && answered(#[trigger] s[i]) && sets[x] == addresses_from(s, s[i].resolver.deep_view());
        let j = choose|j: int|
            0 <= j < s.len() && answered(#[trigger] s[j]) && sets[y] == addresses_from(s, s[j].resolver.deep_view());
        let p = addresses_from(s, s[i].resolver.deep_view());
        let q = addresses_from(s, s[j].resolver.deep_view());
        assert(!(p =~= q));
        let a = choose|a: IpAddr| p.contains(a) != q.contains(a);
        lemma_offers(s, s[i].resolver.deep_view(), a);
        lemma_offers(s, s[j].resolver.deep_view(), a);
        if p.contains(a) {
            assert(offers(s, s[i].resolver.deep_view(), a) && s[j].error is None);
        } else {
            assert(offers(s, s[j].resolver.deep_view(), a) && s[i].error is None);
        }
    }
    if exists|i: int, j: int, a: IpAddr|
        #![trigger offers(s, s[i].resolver.deep_view(), a), s[j]]
        0 <= i < s.len() && 0 <= j < s.len() && s[i].error is None && s[i].records@.len() > 0 && s[j].error is None
            && s[j].records@.len() > 0 && offers(s, s[i].resolver.deep_view(), a) && !offers(
            s,
            s[j].resolver.deep_view(),
            a,
        ) {
        let (i, j, a) = choose|i: int, j: int, a: IpAddr|
            #![trigger offers(s, s[i].resolver.deep_view(), a), s[j]]
            0 <= i < s.len() && 0 <= j < s.len() && s[i].error is None && s[i].records@.len() > 0 && s[j].error is None
                && s[j].records@.len() > 0 && offers(s, s[i].resolver.deep_view(), a) && !offers(
                s,
                s[j].resolver.deep_view(),
                a,
            );
        lemma_offers(s, s[i].resolver.deep_view(), a);
        lemma_offers(s, s[j].resolver.deep_view(), a);
        assert(answered(s[i]) && answered(s[j]));
        let p = addresses_from(s, s[i].resolver.deep_view());
        let q = addresses_from(s, s[j].resolver.deep_view());
        lemma_answer_sets(s, s, p);
        lemma_answer_sets(s, s, q);
        assert(comes_from(s, s, p) && comes_from(s, s, q));
        let x = choose|x: int| 0 <= x < sets.len() && sets[x] == p;
        let y = choose|y: int| 0 <= y < sets.len() && sets[y] == q;
        assert(sets[x] != sets[y]);
    }
}

/// A DNS diagnosis is given exactly when every lookup failed, with high severity,
/// or when resolvers disagree, with low severity.
pub proof fn lemma_resolution(input: DiagnosticInput, today: Option<i64>)
    ensures
        raised(diagnoses(input, today), DiagnosticCategory::Dns) <==> (input.dns@.len() > 0 && forall|i: int|
            0 <= i < input.dns@.len() ==> (#[trigger] input.dns@[i]).error is Some) || disagreement(input.dns@),
        forall|k: int|
            0 <= k < diagnoses(input, today).len() && (#[trigger] diagnoses(input, today)[k]).category
                == DiagnosticCategory::Dns ==> diagnoses(input, today)[k].severity == (if forall|i: int|
                0 <= i < input.dns@.len() ==> (#[trigger] input.dns@[i]).error is Some {
                Severity::High
            } else {
                Severity::Low
            }),
{
    let s = resolution(input.hostname@, input.dns@);
    lemma_raised(input, today, DiagnosticCategory::Dns);
    assert forall|d: DiagnosisModel| #[trigger] findings(input, today).contains(d) && d.category
        == DiagnosticCategory::Dns implies s.contains(d) by {
        lemma_found(input, today, d);
        lemma_categories(input, today, d);
    }
    if s.len() > 0 {
        assert(s.contains(s[0]));
        lemma_found(input, today, s[0]);
    }
    assert forall|k: int| 0 <= k < diagnoses(input, today).len() && (#[trigger] diagnoses(input, today)[k]).category
        == DiagnosticCategory::Dns implies s.contains(diagnoses(input, today)[k]) by {
        assert(findings(input, today).contains(diagnoses(input, today)[k]));
    }
}

// --- filtering ---------------------------------------------------------------------------

/// One where a condition holds.
pub open spec fn one_if(b: bool) -> nat {
    if b {
        1
    } else {
        0
    }
}

/// Possible filtering is raised exactly when two or more of these hold: the
/// resolvers disagree; some connects succeed while others fail on the way; a
/// connection was reset; a handshake failed where a connect succeeded; HTTP/3
/// failed while another protocol did not; repeated attempts both succeeded and
/// failed.
pub proof fn lemma_filtering_signals(input: DiagnosticInput, today: Option<i64>)
    ensures
        ({
            let tcp = input.tcp@;
            let tls = input.tls@;
            let http = input.http@;
            let probes = input.probes@;
            let selective = (exists|i: int| 0 <= i < tcp.len() && (#[trigger] tcp[i]).success) && (exists|i: int|
                0 <= i < tcp.len() && ((#[trigger] tcp[i]).failure matches Some(f) && f.kind
                    != FailureKind::NetworkUnreachable && f.kind != FailureKind::HostUnreachable));
            let reset = exists|i: int|
                0 <= i < tcp.len() && ((#[trigger] tcp[i]).failure matches Some(f) && f.kind
                    == FailureKind::ConnectionReset);
            let handshake = exists|i: int, j: int|
                0 <= i < tls.len() && 0 <= j < tcp.len() && !(#[trigger] tls[i]).success && (#[trigger] tcp[j]).success
                    && tcp[j].destination == tls[i].destination;
            let quic = (exists|i: int|
                0 <= i < http.len() && ((#[trigger] http[i]).protocol matches Some(p) && p@ == "HTTP/3"@)
                    && http[i].failure is Some) && (exists|i: int|
                0 <= i < http.len() && !((#[trigger] http[i]).protocol matches Some(p) && p@ == "HTTP/3"@)
                    && http[i].failure is None);
            let mixed = exists|i: int|
                0 <= i < probes.len() && (#[trigger] probes[i]).successes > 0 && probes[i].failures > 0;
            let n = one_if(disagreement(input.dns@)) + one_if(selective) + one_if(reset) + one_if(handshake) + one_if(
                quic,
            ) + one_if(mixed);
            &&& input_signals(input).len() == n
            &&& raised(diagnoses(input, today), DiagnosticCategory::PossibleNetworkFiltering) <==> n >= 2
        }),
{
    let tcp = input.tcp@;
    let tls = input.tls@;
    let http = input.http@;
    let s = suspicion(input.hostname@, input_signals(input));
    lemma_raised(input, today, DiagnosticCategory::PossibleNetworkFiltering);
    assert forall|d: DiagnosisModel| #[trigger] findings(input, today).contains(d) && d.category
        == DiagnosticCategory::PossibleNetworkFiltering implies s.contains(d) by {
        lemma_found(input, today, d);
        lemma_categories(input, today, d);
    }
    if s.len() > 0 {
        assert(s.contains(s[0]));
        lemma_found(input, today, s[0]);
    }
    assert forall|i: int| 0 <= i < tcp.len() implies path_failure(#[trigger] tcp[i]) == (tcp[i].failure matches Some(f)
        && f.kind != FailureKind::NetworkUnreachable && f.kind != FailureKind::HostUnreachable) && was_reset(tcp[i])
        == (tcp[i].failure matches Some(f) && f.kind == FailureKind::ConnectionReset) by {}
    assert forall|i: int| 0 <= i < http.len() implies is_http3(#[trigger] http[i]) == (http[i].protocol matches Some(p)
        && p@ == "HTTP/3"@) by {}
    lemma_signal_terms(tcp, tls, http);
}

/// The signals, by their observations.
proof fn lemma_signal_terms(tcp: Seq<TcpObservation>, tls: Seq<TlsObservation>, http: Seq<HttpObservation>)
    ensures
        address_specific(tcp) <==> (exists|i: int| 0 <= i < tcp.len() && (#[trigger] tcp[i]).success) && (exists|i: int|
            0 <= i < tcp.len() && ((#[trigger] tcp[i]).failure matches Some(f) && f.kind
                != FailureKind::NetworkUnreachable && f.kind != FailureKind::HostUnreachable)),
        resets(tcp) <==> exists|i: int|
            0 <= i < tcp.len() && ((#[trigger] tcp[i]).failure matches Some(f) && f.kind
                == FailureKind::ConnectionReset),
        handshakes_fail(tls, tcp) <==> exists|i: int, j: int|
            0 <= i < tls.len() && 0 <= j < tcp.len() && !(#[trigger] tls[i]).success && (#[trigger] tcp[j]).success
                && tcp[j].destination == tls[i].destination,
        quic_only(http) <==> (exists|i: int|
            0 <= i < http.len() && ((#[trigger] http[i]).protocol matches Some(p) && p@ == "HTTP/3"@)
                && http[i].failure is Some) && (exists|i: int|
            0 <= i < http.len() && !((#[trigger] http[i]).protocol matches Some(p) && p@ == "HTTP/3"@)
                && http[i].failure is None),
{
    if exists|i: int|
        0 <= i < tcp.len() && ((#[trigger] tcp[i]).failure matches Some(f) && f.kind
            != FailureKind::NetworkUnreachable && f.kind != FailureKind::HostUnreachable) {
        let i = choose|i: int|
            0 <= i < tcp.len() && ((#[trigger] tcp[i]).failure matches Some(f) && f.kind
                != FailureKind::NetworkUnreachable && f.kind != FailureKind::HostUnreachable);
        assert(path_failure(tcp[i]));
    }
    if exists|i: int|
        0 <= i < tcp.len() && ((#[trigger] tcp[i]).failure matches Some(f) && f.kind == FailureKind::ConnectionReset) {
        let i = choose|i: int|
            0 <= i < tcp.len() && ((#[trigger] tcp[i]).failure matches Some(f) && f.kind
                == FailureKind::ConnectionReset);
        assert(was_reset(tcp[i]));
    }
    if handshakes_fail(tls, tcp) {
        let i = choose|i: int|
            0 <= i < tls.len() && !(#[trigger] tls[i]).success && connected(tcp, tls[i].destination);
        let j = choose|j: int|
            0 <= j < tcp.len() && (#[trigger] tcp[j]).destination == tls[i].destination && tcp[j].success;
        assert(!tls[i].success && tcp[j].success);
    }
    if exists|i: int, j: int|
        0 <= i < tls.len() && 0 <= j < tcp.len() && !(#[trigger] tls[i]).success && (#[trigger] tcp[j]).success
            && tcp[j].destination == tls[i].destination {
        let (i, j) = choose|i: int, j: int|
            0 <= i < tls.len() && 0 <= j < tcp.len() && !(#[trigger] tls[i]).success && (#[trigger] tcp[j]).success
                && tcp[j].destination == tls[i].destination;
        assert(tcp[j].destination == tls[i].destination);
        assert(connected(tcp, tls[i].destination));
    }
    if exists|i: int|
        0 <= i < http.len() && ((#[trigger] http[i]).protocol matches Some(p) && p@ == "HTTP/3"@) && http[i].failure is Some {
        let i = choose|i: int|
            0 <= i < http.len() && ((#[trigger] http[i]).protocol matches Some(p) && p@ == "HTTP/3"@)
                && http[i].failure is Some;
        assert(is_http3(http[i]));
    }
    if exists|i: int|
        0 <= i < http.len() && !((#[trigger] http[i]).protocol matches Some(p) && p@ == "HTTP/3"@)
            && http[i].failure is None {
        let i = choose|i: int|
            0 <= i < http.len() && !((#[trigger] http[i]).protocol matches Some(p) && p@ == "HTTP/3"@)
                && http[i].failure is None;
        assert(!is_http3(http[i]));
    }
}

} // verus!
