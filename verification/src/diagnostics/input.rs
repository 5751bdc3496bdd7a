//! The observations the engine works on, and building blocks its rules share.

use crate::model::diagnosis::DiagnosisModel;
use crate::model::{
    Confidence, Diagnosis, DiagnosticCategory, DnsObservation, Evidence, FailureKind, HttpObservation, ProbeResult,
    Severity, TcpObservation, TlsObservation,
};
use crate::net::SocketAddr;
use crate::probe::occurrences;
use crate::text::{dec, first_seen, glue, push_dec, same_text, texts};
use vstd::prelude::*;

verus! {

/// Inputs to the diagnostic engine: the observations collected by the probe
/// layer.
pub struct DiagnosticInput<'a> {
    /// Hostname the user targeted.
    pub hostname: &'a str,
    /// DNS observations (per resolver / record type).
    pub dns: &'a [DnsObservation],
    /// TCP connection observations (per destination address).
    pub tcp: &'a [TcpObservation],
    /// TLS handshake observations (per destination address).
    pub tls: &'a [TlsObservation],
    /// HTTPS / HTTP observations (per destination address).
    pub http: &'a [HttpObservation],
    /// Repeated probe results (per destination address).
    pub probes: &'a [ProbeResult],
}

/// Build a diagnosis.
pub fn finding(
    severity: Severity,
    category: DiagnosticCategory,
    confidence: Confidence,
    summary: String,
    evidence: Vec<String>,
    possible_causes: Vec<String>,
) -> (r: Diagnosis)
    ensures
        r.deep_view() == (DiagnosisModel {
            severity,
            category,
            confidence,
            summary: summary@,
            evidence: texts(evidence@),
            possible_causes: texts(possible_causes@),
        }),
{
    let mut list: Vec<Evidence> = Vec::new();
    for i in 0..evidence.len()
        invariant
            list@.len() == i,
            forall|j: int| 0 <= j < i ==> (#[trigger] list@[j]).detail@ == evidence@[j]@,
    {
        list.push(Evidence { detail: evidence[i].clone() });
    }
    let r = Diagnosis { severity, category, confidence, summary, evidence: list, possible_causes };
    assert(r.evidence@.map_values(|e: Evidence| e.detail@) =~= texts(evidence@));
    r
}

/// Append a diagnosis.
pub fn raise(out: &mut Vec<Diagnosis>, d: Diagnosis)
    ensures
        final(out).deep_view() == old(out).deep_view().push(d.deep_view()),
{
    let ghost before = out.deep_view();
    out.push(d);
    assert(out.deep_view() =~= before.push(d.deep_view()));
}

/// The texts of string slices.
pub open spec fn str_texts(v: Seq<&str>) -> Seq<Seq<char>> {
    v.map_values(|s: &str| s@)
}

/// Owned copies of string slices.
pub fn strings(v: Vec<&str>) -> (out: Vec<String>)
    ensures
        texts(out@) == str_texts(v@),
{
    let mut out: Vec<String> = Vec::new();
    for i in 0..v.len()
        invariant
            texts(out@) == str_texts(v@.take(i as int)),
    {
        let ghost before = out@;
        out.push(v[i].to_owned());
        assert(texts(out@) =~= texts(before).push(v@[i as int]@));
        assert(str_texts(v@.take(i as int + 1)) =~= str_texts(v@.take(i as int)).push(v@[i as int]@));
    }
    assert(v@.take(v@.len() as int) =~= v@);
    out
}

/// A single text as a list.
pub fn one(s: String) -> (out: Vec<String>)
    ensures
        texts(out@) == seq![s@],
{
    let mut out: Vec<String> = Vec::new();
    out.push(s);
    assert(texts(out@) =~= seq![s@]);
    out
}

/// Two texts as a list.
pub fn two(a: String, b: String) -> (out: Vec<String>)
    ensures
        texts(out@) == seq![a@, b@],
{
    let mut out: Vec<String> = Vec::new();
    out.push(a);
    out.push(b);
    assert(texts(out@) =~= seq![a@, b@]);
    out
}

/// Whether a failure is the host's own lack of a route, reported by the local
/// stack before any packet is sent.
pub open spec fn is_local_unreachability(kind: FailureKind) -> bool {
    kind == FailureKind::NetworkUnreachable || kind == FailureKind::HostUnreachable
}

/// Whether a failure is the host's own lack of a route.
pub fn local_unreachability(kind: FailureKind) -> (r: bool)
    ensures
        r == is_local_unreachability(kind),
{
    matches!(kind, FailureKind::NetworkUnreachable | FailureKind::HostUnreachable)
}

/// Whether TCP connected to a destination.
pub open spec fn connected(tcp: Seq<TcpObservation>, d: SocketAddr) -> bool {
    exists|i: int| 0 <= i < tcp.len() && (#[trigger] tcp[i]).destination == d && tcp[i].success
}

/// Whether TCP failed to connect to a destination.
pub open spec fn refused(tcp: Seq<TcpObservation>, d: SocketAddr) -> bool {
    exists|i: int| 0 <= i < tcp.len() && (#[trigger] tcp[i]).destination == d && !tcp[i].success
}

/// Whether TCP connected to a destination (or, with `success` off, failed to).
pub fn any_tcp(tcp: &[TcpObservation], d: SocketAddr, success: bool) -> (r: bool)
    ensures
        success ==> r == connected(tcp@, d),
        !success ==> r == refused(tcp@, d),
{
    for i in 0..tcp.len()
        invariant
            forall|j: int| 0 <= j < i ==> !((#[trigger] tcp@[j]).destination == d && tcp@[j].success == success),
    {
        if tcp[i].destination == d && tcp[i].success == success {
            assert(tcp@[i as int].destination == d);
            return true;
        }
    }
    false
}

/// Whether an observation is of HTTP/3.
pub open spec fn is_http3(h: HttpObservation) -> bool {
    h.protocol matches Some(p) && p@ == "HTTP/3"@
}

/// Whether an observation is of HTTP/3.
pub fn http3(h: &HttpObservation) -> (r: bool)
    ensures
        r == is_http3(*h),
{
    match &h.protocol {
        Some(p) => same_text(p.as_str(), "HTTP/3"),
        None => false,
    }
}

/// A failure mode with a number: `{kind}: {n}`.
pub open spec fn kind_count(kind: FailureKind, n: nat) -> Seq<char> {
    kind.text() + ": "@ + dec(n)
}

/// A failure mode with a number.
pub fn kind_count_text(kind: FailureKind, n: usize) -> (out: String)
    ensures
        out@ == kind_count(kind, n as nat),
{
    let mut out = glue(kind.to_text(), ": ");
    push_dec(&mut out, n as u64);
    out
}

/// The distinct failure modes, in the order in which they first occur.
pub fn distinct_kinds(kinds: &[FailureKind]) -> (out: Vec<FailureKind>)
    ensures
        out@ == first_seen(kinds@),
{
    let mut out: Vec<FailureKind> = Vec::new();
    for i in 0..kinds.len()
        invariant
            out@ == first_seen(kinds@.take(i as int)),
    {
        assert(kinds@.take(i as int + 1).drop_last() =~= kinds@.take(i as int));
        let k = kinds[i];
        let mut seen = false;
        for j in 0..out.len()
            invariant
                seen == exists|a: int| 0 <= a < j && #[trigger] out@[a] == k,
        {
            if out[j] == k {
                assert(out@[j as int] == k);
                seen = true;
            }
        }
        if !seen {
            out.push(k);
        }
    }
    assert(kinds@.take(kinds@.len() as int) =~= kinds@);
    out
}

/// How often a failure mode occurs.
pub fn count_kind(kinds: &[FailureKind], k: FailureKind) -> (n: usize)
    ensures
        n == occurrences(kinds@, k),
{
    let mut n: usize = 0;
    for i in 0..kinds.len()
        invariant
            n == occurrences(kinds@.take(i as int), k),
            n <= i,
    {
        assert(kinds@.take(i as int + 1).drop_last() =~= kinds@.take(i as int));
        if kinds[i] == k {
            n = n + 1;
        }
    }
    assert(kinds@.take(kinds@.len() as int) =~= kinds@);
    n
}

} // verus!
