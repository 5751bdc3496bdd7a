//! Deterministic diagnostic engine.
//!
//! This module performs no network I/O. It takes normalized observations and
//! produces a set of evidence-based diagnoses. It never claims censorship from
//! a single failure mode; it only raises possible network filtering with
//! low/medium confidence when several independent signals align, and always
//! lists the mundane alternatives that also fit the evidence.
//!
//! The rule families live in submodules: `dns` (resolution), `connectivity`
//! (TCP reachability), `layer` (TLS/HTTP/QUIC/intermittent) and `filtering`
//! (conservative multi-signal analysis).

pub mod connectivity;
pub mod content;
pub mod dns;
pub mod filtering;
pub mod input;
pub mod laws;
pub mod layer;

pub use input::DiagnosticInput;

use crate::model::diagnosis::DiagnosisModel;
use crate::model::{Confidence, Diagnosis, DiagnosticCategory, Severity, TlsObservation};
use crate::report::date::{today, valid_day};
use connectivity::{connectivity, connectivity_rules, families, family_rules};
use dns::{disagreement, dns_rules, resolution};
use filtering::{filtering_rules, signals, suspicion};
use input::{finding, one, raise};
use layer::{
    certificate_coverage_rules, certificate_lifetime_rules, coverage, coverage_of, end_findings, flapping, http_layer,
    http_layer_rules, intermittent_rules, lifetimes, quic_path, quic_rules, redirect_rules, redirection,
    start_findings, tls_layer, tls_layer_rules, truncated_body_rules, truncation, valid_probes,
};
use crate::text::glue;
use vstd::prelude::*;

verus! {

/// The filtering signals in an input.
pub open spec fn input_signals(input: DiagnosticInput) -> Seq<Seq<char>> {
    signals(disagreement(input.dns@), input.tcp@, input.tls@, input.http@, input.probes@)
}

/// Everything the rules find in an input on a day, in the order of the rules.
pub open spec fn findings(input: DiagnosticInput, today: Option<i64>) -> Seq<DiagnosisModel> {
    resolution(input.hostname@, input.dns@) + connectivity(input.hostname@, input.tcp@) + families(
        input.hostname@,
        input.tcp@,
    ) + tls_layer(input.tls@, input.tcp@) + lifetimes(input.tls@, today) + coverage(input.tls@) + http_layer(
        input.hostname@,
        input.http@,
        input.tcp@,
    ) + redirection(input.hostname@, input.http@) + truncation(input.hostname@, input.http@) + quic_path(
        input.hostname@,
        input.http@,
    ) + flapping(input.probes@) + suspicion(input.hostname@, input_signals(input))
}

/// The diagnosis when nothing anomalous is found.
pub open spec fn healthy(hostname: Seq<char>) -> DiagnosisModel {
    DiagnosisModel {
        severity: Severity::Info,
        category: DiagnosticCategory::Healthy,
        confidence: Confidence::High,
        summary: "No significant connectivity anomaly observed for "@ + hostname,
        evidence: seq!["Every observed protocol layer succeeded or showed only expected behavior."@],
        possible_causes: Seq::empty(),
    }
}

/// The diagnoses for an input on a day: what the rules find, or a single
/// healthy diagnosis.
pub open spec fn diagnoses(input: DiagnosticInput, today: Option<i64>) -> Seq<DiagnosisModel> {
    if findings(input, today).len() == 0 {
        seq![healthy(input.hostname@)]
    } else {
        findings(input, today)
    }
}

/// Evaluate all rules against the observations as of a given day and return
/// the resulting diagnoses, ordered deterministically.
pub fn diagnose_at(input: &DiagnosticInput, today: Option<i64>) -> (out: Vec<Diagnosis>)
    requires
        valid_day(today),
        valid_probes(input.probes@),
    ensures
        out.deep_view() == diagnoses(*input, today),
{
    let mut out: Vec<Diagnosis> = Vec::new();
    assert(out.deep_view() =~= Seq::empty());
    let dns_signal = dns_rules(input, &mut out);
    assert(out.deep_view() =~= resolution(input.hostname@, input.dns@));
    connectivity_rules(input, &mut out);
    family_rules(input, &mut out);
    tls_layer_rules(input, &mut out);
    certificate_lifetime_rules(input, today, &mut out);
    certificate_coverage_rules(input, &mut out);
    http_layer_rules(input, &mut out);
    redirect_rules(input, &mut out);
    truncated_body_rules(input, &mut out);
    quic_rules(input, &mut out);
    intermittent_rules(input, &mut out);
    filtering_rules(input, dns_signal, &mut out);
    assert(out.deep_view() == findings(*input, today));
    assert(out.deep_view().len() == out@.len());
    if out.len() == 0 {
        let causes: Vec<String> = Vec::new();
        let d = finding(
            Severity::Info,
            DiagnosticCategory::Healthy,
            Confidence::High,
            glue("No significant connectivity anomaly observed for ", input.hostname),
            one("Every observed protocol layer succeeded or showed only expected behavior.".to_owned()),
            causes,
        );
        assert(d.deep_view() =~= healthy(input.hostname@));
        raise(&mut out, d);
        assert(out.deep_view() =~= seq![healthy(input.hostname@)]);
    }
    out
}

/// Evaluate all rules against the observations and return the resulting
/// diagnoses, ordered deterministically. Returns a single healthy diagnosis
/// when nothing anomalous is found. Certificate lifetimes are judged by the
/// system clock, which is read once.
pub fn diagnose(input: &DiagnosticInput) -> (out: Vec<Diagnosis>)
    requires
        valid_probes(input.probes@),
    ensures
        exists|now: Option<i64>| #[trigger] valid_day(now) && out.deep_view() == diagnoses(*input, now),
{
    let now = today();
    diagnose_at(input, now)
}

// --- laws --------------------------------------------------------------------------------

/// Whether a diagnosis is of an anomaly, and says what it rests on and what
/// may explain it.
pub open spec fn is_anomaly(d: DiagnosisModel) -> bool {
    &&& d.category != DiagnosticCategory::Healthy
    &&& d.severity != Severity::Info
    &&& d.evidence.len() > 0
    &&& d.possible_causes.len() > 0
}

/// Whether every diagnosis is of an anomaly.
pub open spec fn all_anomalies(s: Seq<DiagnosisModel>) -> bool {
    forall|i: int| 0 <= i < s.len() ==> is_anomaly(#[trigger] s[i])
}

/// Anomalies in a row are anomalies.
proof fn lemma_anomalies_join(a: Seq<DiagnosisModel>, b: Seq<DiagnosisModel>)
    requires
        all_anomalies(a),
        all_anomalies(b),
    ensures
        all_anomalies(a + b),
{
    assert forall|i: int| 0 <= i < (a + b).len() implies is_anomaly(#[trigger] (a + b)[i]) by {
        if i < a.len() {
            assert(is_anomaly(a[i]));
        } else {
            assert(is_anomaly(b[i - a.len()]));
        }
    }
}

/// Certificate lifetimes give only anomalies.
proof fn lemma_lifetimes_are_anomalies(tls: Seq<TlsObservation>, today: Option<i64>)
    ensures
        all_anomalies(lifetimes(tls, today)),
    decreases tls.len(),
{
    if tls.len() > 0 {
        lemma_lifetimes_are_anomalies(tls.drop_last(), today);
        match tls.last().certificate {
            None => {},
            Some(cert) => {
                let front = lifetimes(tls.drop_last(), today);
                let start = start_findings(tls.last().sni@, cert, today);
                let end = end_findings(tls.last().sni@, cert, today);
                lemma_anomalies_join(front, start);
                lemma_anomalies_join(front + start, end);
            },
        }
    }
}

/// Certificate names give only anomalies.
proof fn lemma_coverage_is_anomalous(tls: Seq<TlsObservation>)
    ensures
        all_anomalies(coverage(tls)),
    decreases tls.len(),
{
    if tls.len() > 0 {
        lemma_coverage_is_anomalous(tls.drop_last());
        match tls.last().certificate {
            None => {},
            Some(cert) => {
                lemma_anomalies_join(coverage(tls.drop_last()), coverage_of(tls.last().sni@, cert));
            },
        }
    }
}

/// Repeated probes give only anomalies.
proof fn lemma_flapping_is_anomalous(probes: Seq<crate::model::ProbeResult>)
    ensures
        all_anomalies(flapping(probes)),
    decreases probes.len(),
{
    if probes.len() > 0 {
        lemma_flapping_is_anomalous(probes.drop_last());
    }
}

/// Whatever the rules find is an anomaly: it is not healthy, rests on some
/// evidence, and lists at least one possible cause.
pub proof fn lemma_findings_are_anomalies(input: DiagnosticInput, today: Option<i64>)
    ensures
        all_anomalies(findings(input, today)),
{
    let h = input.hostname@;
    let a = resolution(h, input.dns@);
    let b = connectivity(h, input.tcp@);
    let c = families(h, input.tcp@);
    let d = tls_layer(input.tls@, input.tcp@);
    let e = lifetimes(input.tls@, today);
    let f = coverage(input.tls@);
    let g = http_layer(h, input.http@, input.tcp@);
    let i = redirection(h, input.http@);
    let j = truncation(h, input.http@);
    let k = quic_path(h, input.http@);
    let l = flapping(input.probes@);
    let m = suspicion(h, input_signals(input));
    lemma_lifetimes_are_anomalies(input.tls@, today);
    lemma_coverage_is_anomalous(input.tls@);
    lemma_flapping_is_anomalous(input.probes@);
    lemma_anomalies_join(a, b);
    lemma_anomalies_join(a + b, c);
    lemma_anomalies_join(a + b + c, d);
    lemma_anomalies_join(a + b + c + d, e);
    lemma_anomalies_join(a + b + c + d + e, f);
    lemma_anomalies_join(a + b + c + d + e + f, g);
    lemma_anomalies_join(a + b + c + d + e + f + g, i);
    lemma_anomalies_join(a + b + c + d + e + f + g + i, j);
    lemma_anomalies_join(a + b + c + d + e + f + g + i + j, k);
    lemma_anomalies_join(a + b + c + d + e + f + g + i + j + k, l);
    lemma_anomalies_join(a + b + c + d + e + f + g + i + j + k + l, m);
}

/// There is always a diagnosis, and a healthy one stands alone: it is given
/// exactly when no rule finds anything.
pub proof fn lemma_healthy_stands_alone(input: DiagnosticInput, today: Option<i64>)
    ensures
        diagnoses(input, today).len() > 0,
        (exists|i: int|
            0 <= i < diagnoses(input, today).len() && (#[trigger] diagnoses(input, today)[i]).category
                == DiagnosticCategory::Healthy) <==> findings(input, today).len() == 0,
        findings(input, today).len() == 0 ==> diagnoses(input, today) == seq![healthy(input.hostname@)],
{
    lemma_findings_are_anomalies(input, today);
    if findings(input, today).len() == 0 {
        assert(diagnoses(input, today)[0].category == DiagnosticCategory::Healthy);
    }
}

/// Possible filtering is never claimed from fewer than two signals, never with
/// high confidence, with medium confidence only from four signals on, and
/// always beside the ordinary explanations.
pub proof fn lemma_filtering_is_conservative(input: DiagnosticInput, today: Option<i64>, i: int)
    requires
        0 <= i < diagnoses(input, today).len(),
        diagnoses(input, today)[i].category == DiagnosticCategory::PossibleNetworkFiltering,
    ensures
        input_signals(input).len() >= 2,
        diagnoses(input, today)[i].evidence == input_signals(input),
        diagnoses(input, today)[i].confidence == Confidence::Low || (diagnoses(input, today)[i].confidence
            == Confidence::Medium && input_signals(input).len() >= 4),
        diagnoses(input, today)[i].possible_causes == filtering::alternatives(),
{
    let h = input.hostname@;
    let front = resolution(h, input.dns@) + connectivity(h, input.tcp@) + families(h, input.tcp@) + tls_layer(
        input.tls@,
        input.tcp@,
    ) + lifetimes(input.tls@, today) + coverage(input.tls@) + http_layer(h, input.http@, input.tcp@) + redirection(
        h,
        input.http@,
    ) + truncation(h, input.http@) + quic_path(h, input.http@) + flapping(input.probes@);
    let last = suspicion(h, input_signals(input));
    assert(findings(input, today) == front + last);
    lemma_others_do_not_suspect(input, today);
    if i < front.len() {
        assert(!suspects(front[i]));
    } else {
        assert(findings(input, today)[i] == last[i - front.len()]);
    }
}

/// Whether a diagnosis claims possible filtering.
spec fn suspects(d: DiagnosisModel) -> bool {
    d.category == DiagnosticCategory::PossibleNetworkFiltering
}

/// Whether no diagnosis claims possible filtering.
spec fn none_suspects(s: Seq<DiagnosisModel>) -> bool {
    forall|i: int| 0 <= i < s.len() ==> !suspects(#[trigger] s[i])
}

/// Joining keeps that nothing claims possible filtering.
proof fn lemma_suspects_join(a: Seq<DiagnosisModel>, b: Seq<DiagnosisModel>)
    requires
        none_suspects(a),
        none_suspects(b),
    ensures
        none_suspects(a + b),
{
    assert forall|i: int| 0 <= i < (a + b).len() implies !suspects(#[trigger] (a + b)[i]) by {
        if i < a.len() {
            assert(!suspects(a[i]));
        } else {
            assert(!suspects(b[i - a.len()]));
        }
    }
}

/// The per-item rules do not claim possible filtering.
proof fn lemma_items_do_not_suspect(
    tls: Seq<TlsObservation>,
    probes: Seq<crate::model::ProbeResult>,
    today: Option<i64>,
)
    ensures
        none_suspects(lifetimes(tls, today)),
        none_suspects(coverage(tls)),
        none_suspects(flapping(probes)),
    decreases tls.len() + probes.len(),
{
    if tls.len() > 0 {
        lemma_items_do_not_suspect(tls.drop_last(), probes, today);
        match tls.last().certificate {
            None => {},
            Some(cert) => {
                let front = lifetimes(tls.drop_last(), today);
                let start = start_findings(tls.last().sni@, cert, today);
                let end = end_findings(tls.last().sni@, cert, today);
                lemma_suspects_join(front, start);
                lemma_suspects_join(front + start, end);
                lemma_suspects_join(coverage(tls.drop_last()), coverage_of(tls.last().sni@, cert));
            },
        }
    }
    if probes.len() > 0 {
        lemma_items_do_not_suspect(tls, probes.drop_last(), today);
    }
}

/// Only the filtering rule claims possible filtering.
proof fn lemma_others_do_not_suspect(input: DiagnosticInput, today: Option<i64>)
    ensures
        none_suspects(
            resolution(input.hostname@, input.dns@) + connectivity(input.hostname@, input.tcp@) + families(
                input.hostname@,
                input.tcp@,
            ) + tls_layer(input.tls@, input.tcp@) + lifetimes(input.tls@, today) + coverage(input.tls@) + http_layer(
                input.hostname@,
                input.http@,
                input.tcp@,
            ) + redirection(input.hostname@, input.http@) + truncation(input.hostname@, input.http@) + quic_path(
                input.hostname@,
                input.http@,
            ) + flapping(input.probes@),
        ),
{
    let h = input.hostname@;
    let a = resolution(h, input.dns@);
    let b = connectivity(h, input.tcp@);
    let c = families(h, input.tcp@);
    let d = tls_layer(input.tls@, input.tcp@);
    let e = lifetimes(input.tls@, today);
    let f = coverage(input.tls@);
    let g = http_layer(h, input.http@, input.tcp@);
    let i = redirection(h, input.http@);
    let j = truncation(h, input.http@);
    let k = quic_path(h, input.http@);
    let l = flapping(input.probes@);
    lemma_items_do_not_suspect(input.tls@, input.probes@, today);
    lemma_suspects_join(a, b);
    lemma_suspects_join(a + b, c);
    lemma_suspects_join(a + b + c, d);
    lemma_suspects_join(a + b + c + d, e);
    lemma_suspects_join(a + b + c + d + e, f);
    lemma_suspects_join(a + b + c + d + e + f, g);
    lemma_suspects_join(a + b + c + d + e + f + g, i);
    lemma_suspects_join(a + b + c + d + e + f + g + i, j);
    lemma_suspects_join(a + b + c + d + e + f + g + i + j, k);
    lemma_suspects_join(a + b + c + d + e + f + g + i + j + k, l);
}

} // verus!
