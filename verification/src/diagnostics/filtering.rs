//! Conservative network-filtering analysis.
//!
//! Only fires when several independent signals agree, and never with high
//! confidence.

use super::input::{
    any_tcp, connected, finding, http3, is_http3, is_local_unreachability, local_unreachability, raise, strings,
    DiagnosticInput,
};
use crate::model::diagnosis::DiagnosisModel;
use crate::model::{
    Confidence, Diagnosis, DiagnosticCategory, FailureKind, HttpObservation, ProbeResult, Severity, TcpObservation,
    TlsObservation,
};
use crate::text::{glue, push_text, texts};
use vstd::prelude::*;

verus! {

/// Whether a failure happened on the path: an unreachability is reported by
/// the local stack before any packet leaves the host.
pub open spec fn path_failure(o: TcpObservation) -> bool {
    o.failure matches Some(e) && !is_local_unreachability(e.kind)
}

/// Whether some addresses fail on the path while others pass.
pub open spec fn address_specific(tcp: Seq<TcpObservation>) -> bool {
    &&& exists|i: int| 0 <= i < tcp.len() && path_failure(#[trigger] tcp[i])
    &&& exists|i: int| 0 <= i < tcp.len() && (#[trigger] tcp[i]).success
}

/// Whether a connection was reset.
pub open spec fn was_reset(o: TcpObservation) -> bool {
    o.failure matches Some(e) && e.kind == FailureKind::ConnectionReset
}

/// Whether any connection was reset.
pub open spec fn resets(tcp: Seq<TcpObservation>) -> bool {
    exists|i: int| 0 <= i < tcp.len() && was_reset(#[trigger] tcp[i])
}

/// Whether a TLS handshake failed on an address where TCP connected.
pub open spec fn handshakes_fail(tls: Seq<TlsObservation>, tcp: Seq<TcpObservation>) -> bool {
    exists|i: int|
        0 <= i < tls.len() && !(#[trigger] tls[i]).success && connected(tcp, tls[i].destination)
}

/// Whether an HTTP/3 probe failed while one of another protocol succeeded.
pub open spec fn quic_only(http: Seq<HttpObservation>) -> bool {
    &&& exists|i: int| 0 <= i < http.len() && is_http3(#[trigger] http[i]) && http[i].failure is Some
    &&& exists|i: int| 0 <= i < http.len() && !is_http3(#[trigger] http[i]) && http[i].failure is None
}

/// Whether repeated attempts on an address both succeeded and failed.
pub open spec fn repeats_fail(probes: Seq<ProbeResult>) -> bool {
    exists|i: int| 0 <= i < probes.len() && (#[trigger] probes[i]).successes > 0 && probes[i].failures > 0
}

/// A text where a condition holds.
pub open spec fn signal(present: bool, detail: Seq<char>) -> Seq<Seq<char>> {
    if present {
        seq![detail]
    } else {
        Seq::empty()
    }
}

/// The independent filtering signals that were observed.
pub open spec fn signals(
    disagreement: bool,
    tcp: Seq<TcpObservation>,
    tls: Seq<TlsObservation>,
    http: Seq<HttpObservation>,
    probes: Seq<ProbeResult>,
) -> Seq<Seq<char>> {
    signal(disagreement, "resolvers returned different address sets"@) + signal(
        address_specific(tcp),
        "address-specific reachability (some IPs fail, others pass)"@,
    ) + signal(resets(tcp), "TCP resets observed"@) + signal(
        handshakes_fail(tls, tcp),
        "TLS handshake failures observed"@,
    ) + signal(quic_only(http), "protocol-selective failure (QUIC only)"@) + signal(
        repeats_fail(probes),
        "failures reproducible across repeated attempts"@,
    )
}

/// What else may explain the signals.
pub open spec fn alternatives() -> Seq<Seq<char>> {
    seq![
        "destination/cdn failure"@,
        "routing asymmetry"@,
        "packet loss / congestion"@,
        "local or ISP firewall / proxy"@,
        "IPv6 misconfiguration"@,
        "TLS/HTTP protocol incompatibility"@,
        "network filtering or censorship (not proven)"@,
    ]
}

/// What the signals amount to: possible filtering when at least two align.
pub open spec fn suspicion(hostname: Seq<char>, found: Seq<Seq<char>>) -> Seq<DiagnosisModel> {
    if found.len() >= 2 {
        seq![
            DiagnosisModel {
                severity: Severity::Low,
                category: DiagnosticCategory::PossibleNetworkFiltering,
                confidence: if found.len() >= 4 {
                    Confidence::Medium
                } else {
                    Confidence::Low
                },
                summary: "Multiple independent signals are consistent with possible network filtering towards "@
                    + hostname,
                evidence: found,
                possible_causes: alternatives(),
            },
        ]
    } else {
        Seq::empty()
    }
}

/// Whether some addresses fail on the path while others pass.
fn some_addresses_fail(tcp: &[TcpObservation]) -> (r: bool)
    ensures
        r == address_specific(tcp@),
{
    let mut failing = false;
    let mut passing = false;
    for i in 0..tcp.len()
        invariant
            failing == exists|j: int| 0 <= j < i && path_failure(#[trigger] tcp@[j]),
            passing == exists|j: int| 0 <= j < i && (#[trigger] tcp@[j]).success,
    {
        let o = &tcp[i];
        let on_path = match &o.failure {
            Some(e) => !local_unreachability(e.kind),
            None => false,
        };
        if on_path {
            assert(path_failure(tcp@[i as int]));
            failing = true;
        }
        if o.success {
            assert(tcp@[i as int].success);
            passing = true;
        }
    }
    failing && passing
}

/// Whether any connection was reset.
fn any_reset(tcp: &[TcpObservation]) -> (r: bool)
    ensures
        r == resets(tcp@),
{
    for i in 0..tcp.len()
        invariant
            forall|j: int| 0 <= j < i ==> !was_reset(#[trigger] tcp@[j]),
    {
        let reset = match &tcp[i].failure {
            Some(e) => e.kind == FailureKind::ConnectionReset,
            None => false,
        };
        if reset {
            assert(was_reset(tcp@[i as int]));
            return true;
        }
    }
    false
}

/// Whether a TLS handshake failed on an address where TCP connected.
fn any_handshake_failure(tls: &[TlsObservation], tcp: &[TcpObservation]) -> (r: bool)
    ensures
        r == handshakes_fail(tls@, tcp@),
{
    for i in 0..tls.len()
        invariant
            forall|j: int| 0 <= j < i ==> (#[trigger] tls@[j]).success || !connected(tcp@, tls@[j].destination),
    {
        if !tls[i].success && any_tcp(tcp, tls[i].destination, true) {
            assert(!tls@[i as int].success);
            return true;
        }
    }
    false
}

/// Whether an HTTP/3 probe failed while one of another protocol succeeded.
fn only_quic_fails(http: &[HttpObservation]) -> (r: bool)
    ensures
        r == quic_only(http@),
{
    let mut quic_failed = false;
    let mut other_ok = false;
    for i in 0..http.len()
        invariant
            quic_failed == exists|j: int| 0 <= j < i && is_http3(#[trigger] http@[j]) && http@[j].failure is Some,
            other_ok == exists|j: int| 0 <= j < i && !is_http3(#[trigger] http@[j]) && http@[j].failure is None,
    {
        let h = &http[i];
        let failed = h.failure.is_some();
        if http3(h) {
            assert(is_http3(http@[i as int]));
            if failed {
                quic_failed = true;
            }
        } else {
            assert(!is_http3(http@[i as int]));
            if !failed {
                other_ok = true;
            }
        }
    }
    quic_failed && other_ok
}

/// Whether repeated attempts on an address both succeeded and failed.
fn any_mixed_repeat(probes: &[ProbeResult]) -> (r: bool)
    ensures
        r == repeats_fail(probes@),
{
    for i in 0..probes.len()
        invariant
            forall|j: int| 0 <= j < i ==> !((#[trigger] probes@[j]).successes > 0 && probes@[j].failures > 0),
    {
        if probes[i].successes > 0 && probes[i].failures > 0 {
            assert(probes@[i as int].successes > 0);
            return true;
        }
    }
    false
}

/// Append a text where a condition holds.
fn note(out: &mut Vec<String>, present: bool, detail: &str)
    ensures
        texts(final(out)@) == texts(old(out)@) + signal(present, detail@),
{
    let ghost before = texts(out@);
    if present {
        push_text(out, detail.to_owned());
    }
    assert(texts(out@) =~= before + signal(present, detail@));
}

/// Evaluate independent filtering signals; raise a low/medium confidence
/// diagnosis when several align.
pub fn filtering_rules(input: &DiagnosticInput, dns_disagreement: bool, out: &mut Vec<Diagnosis>)
    ensures
        final(out).deep_view() == old(out).deep_view() + suspicion(
            input.hostname@,
            signals(dns_disagreement, input.tcp@, input.tls@, input.http@, input.probes@),
        ),
{
    let ghost before = out.deep_view();
    assert(before + Seq::<DiagnosisModel>::empty() =~= before);
    let mut evidence: Vec<String> = Vec::new();
    assert(texts(evidence@) =~= Seq::empty());
    note(&mut evidence, dns_disagreement, "resolvers returned different address sets");
    assert(texts(evidence@) =~= signal(dns_disagreement, "resolvers returned different address sets"@));
    note(
        &mut evidence,
        some_addresses_fail(input.tcp),
        "address-specific reachability (some IPs fail, others pass)",
    );
    note(&mut evidence, any_reset(input.tcp), "TCP resets observed");
    note(&mut evidence, any_handshake_failure(input.tls, input.tcp), "TLS handshake failures observed");
    note(&mut evidence, only_quic_fails(input.http), "protocol-selective failure (QUIC only)");
    note(&mut evidence, any_mixed_repeat(input.probes), "failures reproducible across repeated attempts");
    let ghost found = signals(dns_disagreement, input.tcp@, input.tls@, input.http@, input.probes@);
    assert(texts(evidence@) == found);
    assert(found.len() == evidence@.len());
    if evidence.len() >= 2 {
        let confidence = if evidence.len() >= 4 {
            Confidence::Medium
        } else {
            Confidence::Low
        };
        let causes = strings(
            vec![
                "destination/cdn failure",
                "routing asymmetry",
                "packet loss / congestion",
                "local or ISP firewall / proxy",
                "IPv6 misconfiguration",
                "TLS/HTTP protocol incompatibility",
                "network filtering or censorship (not proven)",
            ],
        );
        assert(texts(causes@) =~= alternatives());
        let d = finding(
            Severity::Low,
            DiagnosticCategory::PossibleNetworkFiltering,
            confidence,
            glue(
                "Multiple independent signals are consistent with possible network filtering towards ",
                input.hostname,
            ),
            evidence,
            causes,
        );
        raise(out, d);
    }
    assert(out.deep_view() =~= before + suspicion(input.hostname@, found));
}

/// Failures that are all the host's own missing route give no reachability or
/// reset signal, however many addresses they hit.
pub proof fn lemma_local_unreachability_is_no_signal(tcp: Seq<TcpObservation>)
    requires
        forall|i: int|
            0 <= i < tcp.len() ==> ((#[trigger] tcp[i]).failure matches Some(e) ==> is_local_unreachability(e.kind)),
    ensures
        !address_specific(tcp),
        !resets(tcp),
{
    assert forall|i: int| 0 <= i < tcp.len() implies !path_failure(#[trigger] tcp[i]) && !was_reset(tcp[i]) by {
        assert(tcp[i].failure matches Some(e) ==> is_local_unreachability(e.kind));
    }
}

/// A TLS failure on an address that TCP never reached is not a signal of its
/// own.
pub proof fn lemma_inherited_tls_failure_is_no_signal(tls: Seq<TlsObservation>, tcp: Seq<TcpObservation>)
    requires
        forall|i: int|
            0 <= i < tls.len() && !(#[trigger] tls[i]).success ==> !connected(tcp, tls[i].destination),
    ensures
        !handshakes_fail(tls, tcp),
{
}

} // verus!
