//! What the diagnoses say: how much weight each carries, and which of the
//! observations it names.

use super::connectivity::{connectivity, destinations, failed_modes, families, family_result, in_family};
use super::dns::{failure_messages, resolution};
use super::input::connected;
use super::laws::{failed_in_http, lemma_categories, lemma_flapping, lemma_found};
use super::layer::{
    coverage_of, http_layer, layer_failed, layer_failures, redirect_list, redirection, stalled_list, start_findings,
    tls_layer, tls_only_failures, truncation,
};
use super::{diagnoses, findings, input_signals, DiagnosticInput};
use crate::model::diagnosis::DiagnosisModel;
use crate::model::{
    CertificateSummary, Confidence, DiagnosticCategory, DnsObservation, FailureKind, HttpObservation, Severity,
    TcpObservation, TlsObservation,
};
use crate::report::date::days_until;
use crate::text::{dec, group_occurrence, has_text, lemma_in_joined};
use vstd::prelude::*;

verus! {

// --- lists -------------------------------------------------------------------------------

/// The destinations with an outcome, the modes of the failed connects and the
/// messages of the failed lookups are those observed, in order.
pub proof fn lemma_listed_connects(tcp: Seq<TcpObservation>, dns: Seq<DnsObservation>, success: bool)
    ensures
        destinations(tcp, success) == tcp.filter(|o: TcpObservation| o.success == success).map_values(
            |o: TcpObservation| o.destination.text(),
        ),
        failed_modes(tcp) == tcp.filter(|o: TcpObservation| !o.success && o.failure is Some).map_values(
            |o: TcpObservation| o.failure->0.kind,
        ),
        failure_messages(dns) == dns.filter(|o: DnsObservation| o.error is Some).map_values(
            |o: DnsObservation| o.error->0.message@,
        ),
    decreases tcp.len() + dns.len(),
{
    reveal(Seq::filter);
    let f = |o: TcpObservation| o.success == success;
    let g = |o: TcpObservation| !o.success && o.failure is Some;
    let h = |o: DnsObservation| o.error is Some;
    if tcp.len() > 0 {
        lemma_listed_connects(tcp.drop_last(), dns, success);
    } else if dns.len() > 0 {
        lemma_listed_connects(tcp, dns.drop_last(), success);
    }
    assert(destinations(tcp, success) =~= tcp.filter(f).map_values(|o: TcpObservation| o.destination.text()));
    assert(failed_modes(tcp) =~= tcp.filter(g).map_values(|o: TcpObservation| o.failure->0.kind));
    assert(failure_messages(dns) =~= dns.filter(h).map_values(|o: DnsObservation| o.error->0.message@));
}

/// Each destination is named where its outcome is listed.
proof fn lemma_destination_listed(tcp: Seq<TcpObservation>, success: bool, i: int) -> (k: int)
    requires
        0 <= i < tcp.len(),
        tcp[i].success == success,
    ensures
        0 <= k < destinations(tcp, success).len(),
        destinations(tcp, success)[k] == tcp[i].destination.text(),
    decreases tcp.len(),
{
    if i == tcp.len() - 1 {
        destinations(tcp, success).len() - 1
    } else {
        lemma_destination_listed(tcp.drop_last(), success, i)
    }
}

/// Each handshake that failed alone is listed.
proof fn lemma_handshake_listed(tls: Seq<TlsObservation>, tcp: Seq<TcpObservation>, i: int) -> (k: int)
    requires
        0 <= i < tls.len(),
        !tls[i].success,
        connected(tcp, tls[i].destination),
    ensures
        0 <= k < tls_only_failures(tls, tcp).len(),
        tls_only_failures(tls, tcp)[k] == tls[i].destination.text(),
    decreases tls.len(),
{
    if i == tls.len() - 1 {
        tls_only_failures(tls, tcp).len() - 1
    } else {
        lemma_handshake_listed(tls.drop_last(), tcp, i)
    }
}

/// Each exchange that failed in HTTP is listed.
proof fn lemma_error_listed(http: Seq<HttpObservation>, tcp: Seq<TcpObservation>, i: int) -> (k: int)
    requires
        0 <= i < http.len(),
        failed_in_http(http[i], tcp),
    ensures
        0 <= k < layer_failures(http, tcp).len(),
        layer_failures(http, tcp)[k] == http[i].destination.text() + " -> "@ + (match http[i].status {
            Some(s) => dec(s as nat),
            None => "error"@,
        }),
    decreases http.len(),
{
    assert(layer_failed(http[i], tcp));
    if i == http.len() - 1 {
        layer_failures(http, tcp).len() - 1
    } else {
        lemma_error_listed(http.drop_last(), tcp, i)
    }
}

/// Each redirect is listed.
proof fn lemma_redirect_listed(http: Seq<HttpObservation>, i: int) -> (k: int)
    requires
        0 <= i < http.len(),
        http[i].failure is None,
        http[i].status is Some,
        300 <= http[i].status->0 < 400,
    ensures
        0 <= k < redirect_list(http).len(),
        redirect_list(http)[k] == http[i].destination.text() + " -> "@ + dec(http[i].status->0 as nat) + " "@ + (
        match http[i].location {
            Some(target) => target@,
            None => "(no Location header)"@,
        }),
    decreases http.len(),
{
    if i == http.len() - 1 {
        redirect_list(http).len() - 1
    } else {
        lemma_redirect_listed(http.drop_last(), i)
    }
}

/// Each response whose body did not complete is listed.
proof fn lemma_stall_listed(http: Seq<HttpObservation>, i: int) -> (k: int)
    requires
        0 <= i < http.len(),
        http[i].failure is None,
        http[i].status is Some,
        http[i].body_bytes is None,
    ensures
        0 <= k < stalled_list(http).len(),
        stalled_list(http)[k] == http[i].destination.text(),
    decreases http.len(),
{
    if i == http.len() - 1 {
        stalled_list(http).len() - 1
    } else {
        lemma_stall_listed(http.drop_last(), i)
    }
}

// --- what is named -----------------------------------------------------------------------

/// Whether a diagnosis of a category has a text in its summary or its evidence.
pub open spec fn says(s: Seq<DiagnosisModel>, c: DiagnosticCategory, p: Seq<char>) -> bool {
    exists|k: int|
        0 <= k < s.len() && (#[trigger] s[k]).category == c && (has_text(s[k].summary, p) || exists|j: int|
            0 <= j < s[k].evidence.len() && has_text(#[trigger] s[k].evidence[j], p))
}

/// A finding is among the diagnoses.
proof fn lemma_said(input: DiagnosticInput, today: Option<i64>, d: DiagnosisModel, p: Seq<char>)
    requires
        findings(input, today).contains(d),
        has_text(d.summary, p) || exists|j: int| 0 <= j < d.evidence.len() && has_text(#[trigger] d.evidence[j], p),
    ensures
        says(diagnoses(input, today), d.category, p),
{
    let f = findings(input, today);
    let k = choose|k: int| 0 <= k < f.len() && f[k] == d;
    assert(diagnoses(input, today)[k] == d);
}

/// Where some addresses are reached and some are not, the diagnosis names both:
/// every one that was reached and every one that was not.
pub proof fn lemma_reachable_addresses_are_named(input: DiagnosticInput, today: Option<i64>, i: int, j: int)
    requires
        0 <= i < input.tcp@.len(),
        input.tcp@[i].success,
        0 <= j < input.tcp@.len(),
        !input.tcp@[j].success,
        input.tcp@[j].failure matches Some(f) ==> f.kind != FailureKind::NetworkUnreachable && f.kind
            != FailureKind::HostUnreachable,
    ensures
        says(
            diagnoses(input, today),
            DiagnosticCategory::PartialConnectivity,
            input.tcp@[i].destination.text(),
        ),
        says(
            diagnoses(input, today),
            DiagnosticCategory::PartialConnectivity,
            input.tcp@[j].destination.text(),
        ),
{
    broadcast use group_occurrence;

    let tcp = input.tcp@;
    let a = lemma_destination_listed(tcp, true, i);
    let b = lemma_destination_listed(tcp, false, j);
    let s = connectivity(input.hostname@, tcp);
    lemma_in_joined(destinations(tcp, true), ", "@, a);
    lemma_in_joined(destinations(tcp, false), ", "@, b);
    let d = s[0];
    assert(s.contains(d));
    lemma_found(input, today, d);
    assert(has_text(d.evidence[0], tcp[i].destination.text()));
    lemma_said(input, today, d, tcp[i].destination.text());
    assert(has_text(d.evidence[1], tcp[j].destination.text()));
    lemma_said(input, today, d, tcp[j].destination.text());
}

/// A handshake that failed with a destination that a connect reached is named.
pub proof fn lemma_failed_handshakes_are_named(input: DiagnosticInput, today: Option<i64>, i: int, j: int)
    requires
        0 <= i < input.tls@.len(),
        !input.tls@[i].success,
        0 <= j < input.tcp@.len(),
        input.tcp@[j].success,
        input.tcp@[j].destination == input.tls@[i].destination,
    ensures
        says(diagnoses(input, today), DiagnosticCategory::Tls, input.tls@[i].destination.text()),
{
    broadcast use group_occurrence;

    let k = lemma_handshake_listed(input.tls@, input.tcp@, i);
    let s = tls_layer(input.tls@, input.tcp@);
    lemma_in_joined(tls_only_failures(input.tls@, input.tcp@), ", "@, k);
    assert(s.contains(s[0]));
    lemma_found(input, today, s[0]);
    assert(has_text(s[0].summary, input.tls@[i].destination.text()));
    lemma_said(input, today, s[0], input.tls@[i].destination.text());
}

/// An exchange that failed in HTTP is named with its status.
pub proof fn lemma_http_errors_are_named(input: DiagnosticInput, today: Option<i64>, i: int)
    requires
        0 <= i < input.http@.len(),
        failed_in_http(input.http@[i], input.tcp@),
    ensures
        says(
            diagnoses(input, today),
            DiagnosticCategory::Http,
            input.http@[i].destination.text() + " -> "@ + (match input.http@[i].status {
                Some(s) => dec(s as nat),
                None => "error"@,
            }),
        ),
{
    broadcast use group_occurrence;

    let k = lemma_error_listed(input.http@, input.tcp@, i);
    let all = layer_failures(input.http@, input.tcp@);
    let s = http_layer(input.hostname@, input.http@, input.tcp@);
    lemma_in_joined(all, "; "@, k);
    assert(s.contains(s[0]));
    lemma_found(input, today, s[0]);
    assert(has_text(s[0].evidence[0], all[k]));
    lemma_said(input, today, s[0], all[k]);
}

/// A redirect is named with its status and its target.
pub proof fn lemma_redirects_are_named(input: DiagnosticInput, today: Option<i64>, i: int)
    requires
        0 <= i < input.http@.len(),
        input.http@[i].failure is None,
        input.http@[i].status is Some,
        300 <= input.http@[i].status->0 < 400,
    ensures
        says(
            diagnoses(input, today),
            DiagnosticCategory::Http,
            input.http@[i].destination.text() + " -> "@ + dec(input.http@[i].status->0 as nat) + " "@ + (
            match input.http@[i].location {
                Some(target) => target@,
                None => "(no Location header)"@,
            }),
        ),
{
    broadcast use group_occurrence;

    let k = lemma_redirect_listed(input.http@, i);
    let all = redirect_list(input.http@);
    let s = redirection(input.hostname@, input.http@);
    lemma_in_joined(all, "; "@, k);
    assert(s.contains(s[0]));
    lemma_found(input, today, s[0]);
    assert(has_text(s[0].evidence[0], all[k]));
    lemma_said(input, today, s[0], all[k]);
}

/// A response whose body did not complete is named.
pub proof fn lemma_stalled_bodies_are_named(input: DiagnosticInput, today: Option<i64>, i: int)
    requires
        0 <= i < input.http@.len(),
        input.http@[i].failure is None,
        input.http@[i].status is Some,
        input.http@[i].body_bytes is None,
    ensures
        says(diagnoses(input, today), DiagnosticCategory::Http, input.http@[i].destination.text()),
{
    broadcast use group_occurrence;

    let k = lemma_stall_listed(input.http@, i);
    let all = stalled_list(input.http@);
    let s = truncation(input.hostname@, input.http@);
    lemma_in_joined(all, ", "@, k);
    assert(s.contains(s[0]));
    lemma_found(input, today, s[0]);
    assert(has_text(s[0].evidence[0], all[k]));
    lemma_said(input, today, s[0], all[k]);
}

/// Where one address family is reached and the other is not, the diagnosis names
/// the one that is not.
pub proof fn lemma_broken_family_is_named(input: DiagnosticInput, today: Option<i64>, i: int, j: int)
    requires
        0 <= i < input.tcp@.len(),
        input.tcp@[i].success,
        0 <= j < input.tcp@.len(),
        (input.tcp@[i].destination.ip is V4) != (input.tcp@[j].destination.ip is V4),
        forall|k: int|
            0 <= k < input.tcp@.len() && (#[trigger] input.tcp@[k]).success ==> (input.tcp@[k].destination.ip is V4) == (
            input.tcp@[i].destination.ip is V4),
    ensures
        says(
            diagnoses(input, today),
            DiagnosticCategory::AddressFamily,
            if input.tcp@[j].destination.ip is V4 {
                "IPv4"@
            } else {
                "IPv6"@
            },
        ),
{
    broadcast use group_occurrence;

    let tcp = input.tcp@;
    let v4 = tcp[i].destination.ip is V4;
    assert(in_family(tcp[i], v4));
    assert(in_family(tcp[j], !v4));
    assert(family_result(tcp, v4) == Some(true));
    assert(family_result(tcp, !v4) == Some(false));
    let s = families(input.hostname@, tcp);
    assert(s.contains(s[0]));
    lemma_found(input, today, s[0]);
    let p = if v4 {
        "IPv6"@
    } else {
        "IPv4"@
    };
    assert(has_text(s[0].summary, p));
    lemma_said(input, today, s[0], p);
}

/// A certificate that does not hold yet is reported with the days until it does;
/// one that holds is not reported for its start.
pub proof fn lemma_certificate_start(sni: Seq<char>, cert: CertificateSummary, today: Option<i64>)
    ensures
        cert.not_before_utc is None ==> start_findings(sni, cert, today).len() == 0,
        cert.not_before_utc matches Some(t) ==> (match days_until(t@, today) {
            None => start_findings(sni, cert, today).len() == 0,
            Some(n) => {
                &&& start_findings(sni, cert, today).len() == if n > 0 { 1nat } else { 0nat }
                &&& n > 0 ==> {
                    let d = start_findings(sni, cert, today)[0];
                    &&& d.severity == Severity::Medium && d.confidence == Confidence::Medium
                    &&& has_text(d.summary, dec(n as nat))
                    &&& has_text(d.summary, sni)
                    &&& has_text(d.summary, cert.subject@)
                    &&& has_text(d.evidence[0], t@)
                }
            },
        }),
{
    broadcast use group_occurrence;

}

/// A certificate is reported for its names where it has none, or where none covers
/// the presented name; the report names the presented name and the subject.
pub proof fn lemma_certificate_names(sni: Seq<char>, cert: CertificateSummary)
    ensures
        coverage_of(sni, cert).len() <= 1,
        coverage_of(sni, cert).len() == 1 ==> {
            let d = coverage_of(sni, cert)[0];
            &&& d.severity == Severity::Medium && d.confidence == Confidence::Medium
            &&& has_text(d.summary, sni)
            &&& has_text(d.summary, cert.subject@)
        },
{
    broadcast use group_occurrence;

}

// --- weight ------------------------------------------------------------------------------

/// How much weight a diagnosis carries, by its category: that every lookup failed
/// is certain and grave, that resolvers disagree is neither; an interrupted path is
/// certain; suspected filtering is never grave, and likely only with four signals.
pub proof fn lemma_weight(input: DiagnosticInput, today: Option<i64>, k: int)
    requires
        0 <= k < diagnoses(input, today).len(),
    ensures
        ({
            let d = diagnoses(input, today)[k];
            match d.category {
                DiagnosticCategory::Healthy => d.severity == Severity::Info && d.confidence == Confidence::High,
                DiagnosticCategory::Dns => if forall|i: int|
                    0 <= i < input.dns@.len() ==> (#[trigger] input.dns@[i]).error is Some {
                    d.severity == Severity::High && d.confidence == Confidence::High
                } else {
                    d.severity == Severity::Low && d.confidence == Confidence::Low
                },
                DiagnosticCategory::AddressFamily => d.severity == Severity::Low && d.confidence
                    == Confidence::Medium,
                DiagnosticCategory::Tls => d.severity == Severity::Medium && d.confidence == Confidence::Medium,
                DiagnosticCategory::Http => d.severity == Severity::Low && d.confidence == Confidence::Low,
                DiagnosticCategory::Quic => d.severity == Severity::Low && d.confidence == Confidence::Medium,
                DiagnosticCategory::Intermittent => d.severity == Severity::Medium && d.confidence
                    == Confidence::High,
                DiagnosticCategory::PossibleNetworkFiltering => d.severity == Severity::Low && d.confidence == (
                if input_signals(input).len() >= 4 {
                    Confidence::Medium
                } else {
                    Confidence::Low
                }) && d.evidence == input_signals(input),
                _ => true,
            }
        }),
{
    let d = diagnoses(input, today)[k];
    if findings(input, today).len() > 0 {
        assert(findings(input, today).contains(d));
        lemma_found(input, today, d);
        lemma_categories(input, today, d);
        lemma_flapping(input.probes@, d);
        if resolution(input.hostname@, input.dns@).contains(d) {
            if forall|i: int| 0 <= i < input.dns@.len() ==> (#[trigger] input.dns@[i]).error is Some {
                super::laws::lemma_resolution(input, today);
            }
        }
    }
}

} // verus!
