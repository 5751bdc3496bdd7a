//! Protocol-layer diagnostic rules: TLS, certificates, HTTP, QUIC and
//! intermittent probes.

use super::input::{
    any_tcp, connected, finding, http3, is_http3, kind_count, kind_count_text, one, raise, refused, strings, two,
    DiagnosticInput,
};
use crate::model::diagnosis::DiagnosisModel;
use crate::model::{
    CertificateSummary, Confidence, Diagnosis, DiagnosticCategory, FailureCount, FailureKind, HttpObservation,
    ProbeResult, Severity, TcpObservation, TlsObservation,
};
use crate::report::cert::{cert_covers_hostname, covers, RENDER_CERT_EXPIRY_WINDOW_DAYS};
use crate::report::date::{days_until, days_until_at, valid_day};
use crate::text::{dec, glue, glue3, join, join_texts, push_dec, push_text, texts};
use vstd::prelude::*;

verus! {

// --- TLS ---------------------------------------------------------------------------------

/// The destinations whose TLS handshake failed although TCP connected.
pub open spec fn tls_only_failures(tls: Seq<TlsObservation>, tcp: Seq<TcpObservation>) -> Seq<Seq<char>>
    decreases tls.len(),
{
    if tls.len() == 0 {
        Seq::empty()
    } else if !tls.last().success && connected(tcp, tls.last().destination) {
        tls_only_failures(tls.drop_last(), tcp).push(tls.last().destination.text())
    } else {
        tls_only_failures(tls.drop_last(), tcp)
    }
}

/// Why TLS may fail where TCP connects.
pub open spec fn tls_causes() -> Seq<Seq<char>> {
    seq![
        "server TLS configuration / disabled TLS"@,
        "certificate validation failure"@,
        "SNI/ALPN mismatch"@,
        "middlebox interfering with TLS"@,
    ]
}

/// What TLS amounts to: failures on addresses where TCP connected.
pub open spec fn tls_layer(tls: Seq<TlsObservation>, tcp: Seq<TcpObservation>) -> Seq<DiagnosisModel> {
    let failing = tls_only_failures(tls, tcp);
    if failing.len() == 0 {
        Seq::empty()
    } else {
        seq![
            DiagnosisModel {
                severity: Severity::Medium,
                category: DiagnosticCategory::Tls,
                confidence: Confidence::Medium,
                summary: "TLS handshake fails where TCP connects ("@ + join(failing, ", "@) + ")"@,
                evidence: seq!["TCP established, TLS handshake did not"@],
                possible_causes: tls_causes(),
            },
        ]
    }
}

/// TLS handshake failures on addresses where TCP connected.
pub fn tls_layer_rules(input: &DiagnosticInput, out: &mut Vec<Diagnosis>)
    ensures
        final(out).deep_view() == old(out).deep_view() + tls_layer(input.tls@, input.tcp@),
{
    let ghost before = out.deep_view();
    assert(before + Seq::<DiagnosisModel>::empty() =~= before);
    let mut failing: Vec<String> = Vec::new();
    assert(texts(failing@) =~= Seq::empty());
    for i in 0..input.tls.len()
        invariant
            texts(failing@) == tls_only_failures(input.tls@.take(i as int), input.tcp@),
    {
        assert(input.tls@.take(i as int + 1).drop_last() =~= input.tls@.take(i as int));
        let t = &input.tls[i];
        if !t.success && any_tcp(input.tcp, t.destination, true) {
            push_text(&mut failing, t.destination.to_text());
        }
    }
    assert(input.tls@.take(input.tls@.len() as int) =~= input.tls@);
    assert(texts(failing@).len() == failing@.len());
    if failing.len() > 0 {
        let causes = strings(
            vec![
                "server TLS configuration / disabled TLS",
                "certificate validation failure",
                "SNI/ALPN mismatch",
                "middlebox interfering with TLS",
            ],
        );
        assert(texts(causes@) =~= tls_causes());
        let d = finding(
            Severity::Medium,
            DiagnosticCategory::Tls,
            Confidence::Medium,
            glue3("TLS handshake fails where TCP connects (", join_texts(failing.as_slice(), ", ").as_str(), ")"),
            one("TCP established, TLS handshake did not".to_owned()),
            causes,
        );
        raise(out, d);
    }
    assert(out.deep_view() =~= before + tls_layer(input.tls@, input.tcp@));
}

// --- certificates ------------------------------------------------------------------------

/// Why a certificate may not be valid yet.
pub open spec fn early_causes() -> Seq<Seq<char>> {
    seq![
        "certificate issued with a future notBefore (misissuance)"@,
        "server or client clock skew"@,
        "certificate deployed before its validity window began"@,
    ]
}

/// Why a certificate may have expired.
pub open spec fn expired_causes() -> Seq<Seq<char>> {
    seq!["certificate not renewed before its notAfter"@, "operator is serving a stale/revoked deployment"@]
}

/// The diagnosis for a certificate that starts in some days.
pub open spec fn not_yet_valid(sni: Seq<char>, subject: Seq<char>, not_before: Seq<char>, days: int) -> DiagnosisModel {
    DiagnosisModel {
        severity: Severity::Medium,
        category: DiagnosticCategory::Certificate,
        confidence: Confidence::Medium,
        summary: "Certificate for "@ + sni + " is not yet valid (starts in "@ + dec(days as nat) + " day(s), subject "@
            + subject + ")"@,
        evidence: seq!["peer certificate notBefore is in the future: "@ + not_before],
        possible_causes: early_causes(),
    }
}

/// The diagnosis for a certificate that ended some days ago.
pub open spec fn expired(sni: Seq<char>, subject: Seq<char>, not_after: Seq<char>, days: int) -> DiagnosisModel {
    DiagnosisModel {
        severity: Severity::Medium,
        category: DiagnosticCategory::Certificate,
        confidence: Confidence::High,
        summary: "Certificate for "@ + sni + " expired "@ + dec((-days) as nat) + " day(s) ago (subject "@ + subject
            + ")"@,
        evidence: seq!["peer certificate notAfter is in the past: "@ + not_after],
        possible_causes: expired_causes(),
    }
}

/// The diagnosis for a certificate that ends in some days.
pub open spec fn expiring(sni: Seq<char>, subject: Seq<char>, not_after: Seq<char>, days: int) -> DiagnosisModel {
    DiagnosisModel {
        severity: Severity::Low,
        category: DiagnosticCategory::Certificate,
        confidence: Confidence::Medium,
        summary: "Certificate for "@ + sni + " expires in "@ + dec(days as nat) + " day(s) (subject "@ + subject
            + ")"@,
        evidence: seq!["peer certificate notAfter is in "@ + dec(days as nat) + " day(s): "@ + not_after],
        possible_causes: seq!["certificate approaching its renewal date"@],
    }
}

/// What the start of a certificate amounts to.
pub open spec fn start_findings(sni: Seq<char>, cert: CertificateSummary, today: Option<i64>) -> Seq<DiagnosisModel> {
    match cert.not_before_utc {
        None => Seq::empty(),
        Some(start) => match days_until(start@, today) {
            Some(days) => if days > 0 {
                seq![not_yet_valid(sni, cert.subject@, start@, days)]
            } else {
                Seq::empty()
            },
            None => Seq::empty(),
        },
    }
}

/// What the end of a certificate amounts to.
pub open spec fn end_findings(sni: Seq<char>, cert: CertificateSummary, today: Option<i64>) -> Seq<DiagnosisModel> {
    match cert.not_after_utc {
        None => Seq::empty(),
        Some(end) => match days_until(end@, today) {
            Some(days) => if days < 0 {
                seq![expired(sni, cert.subject@, end@, days)]
            } else if days <= RENDER_CERT_EXPIRY_WINDOW_DAYS {
                seq![expiring(sni, cert.subject@, end@, days)]
            } else {
                Seq::empty()
            },
            None => Seq::empty(),
        },
    }
}

/// What the lifetimes of the served certificates amount to.
pub open spec fn lifetimes(tls: Seq<TlsObservation>, today: Option<i64>) -> Seq<DiagnosisModel>
    decreases tls.len(),
{
    if tls.len() == 0 {
        Seq::empty()
    } else {
        let front = lifetimes(tls.drop_last(), today);
        match tls.last().certificate {
            None => front,
            Some(cert) => front + start_findings(tls.last().sni@, cert, today) + end_findings(
                tls.last().sni@,
                cert,
                today,
            ),
        }
    }
}

/// Report a certificate that is not valid yet.
fn raise_start(out: &mut Vec<Diagnosis>, sni: &str, cert: &CertificateSummary, today: Option<i64>)
    requires
        valid_day(today),
    ensures
        final(out).deep_view() == old(out).deep_view() + start_findings(sni@, *cert, today),
{
    let ghost before = out.deep_view();
    assert(before + Seq::<DiagnosisModel>::empty() =~= before);
    match &cert.not_before_utc {
        None => {},
        Some(start) => match days_until_at(start.as_str(), today) {
            None => {},
            Some(days) => {
                if days > 0 {
                    let causes = strings(
                        vec![
                            "certificate issued with a future notBefore (misissuance)",
                            "server or client clock skew",
                            "certificate deployed before its validity window began",
                        ],
                    );
                    assert(texts(causes@) =~= early_causes());
                    let mut summary = glue3("Certificate for ", sni, " is not yet valid (starts in ");
                    push_dec(&mut summary, days as u64);
                    summary.append(" day(s), subject ");
                    summary.append(cert.subject.as_str());
                    summary.append(")");
                    let d = finding(
                        Severity::Medium,
                        DiagnosticCategory::Certificate,
                        Confidence::Medium,
                        summary,
                        one(glue("peer certificate notBefore is in the future: ", start.as_str())),
                        causes,
                    );
                    raise(out, d);
                    assert(out.deep_view() =~= before + start_findings(sni@, *cert, today));
                }
            },
        },
    }
}

/// Report a certificate that has expired or expires soon.
fn raise_end(out: &mut Vec<Diagnosis>, sni: &str, cert: &CertificateSummary, today: Option<i64>)
    requires
        valid_day(today),
    ensures
        final(out).deep_view() == old(out).deep_view() + end_findings(sni@, *cert, today),
{
    let ghost before = out.deep_view();
    assert(before + Seq::<DiagnosisModel>::empty() =~= before);
    match &cert.not_after_utc {
        None => {},
        Some(end) => match days_until_at(end.as_str(), today) {
            None => {},
            Some(days) => {
                if days < 0 {
                    let causes = strings(
                        vec![
                            "certificate not renewed before its notAfter",
                            "operator is serving a stale/revoked deployment",
                        ],
                    );
                    assert(texts(causes@) =~= expired_causes());
                    let mut summary = glue3("Certificate for ", sni, " expired ");
                    push_dec(&mut summary, (-days) as u64);
                    summary.append(" day(s) ago (subject ");
                    summary.append(cert.subject.as_str());
                    summary.append(")");
                    let d = finding(
                        Severity::Medium,
                        DiagnosticCategory::Certificate,
                        Confidence::High,
                        summary,
                        one(glue("peer certificate notAfter is in the past: ", end.as_str())),
                        causes,
                    );
                    raise(out, d);
                    assert(out.deep_view() =~= before + end_findings(sni@, *cert, today));
                } else if days <= RENDER_CERT_EXPIRY_WINDOW_DAYS {
                    let mut summary = glue3("Certificate for ", sni, " expires in ");
                    push_dec(&mut summary, days as u64);
                    summary.append(" day(s) (subject ");
                    summary.append(cert.subject.as_str());
                    summary.append(")");
                    let mut detail = "peer certificate notAfter is in ".to_owned();
                    push_dec(&mut detail, days as u64);
                    detail.append(" day(s): ");
                    detail.append(end.as_str());
                    let d = finding(
                        Severity::Low,
                        DiagnosticCategory::Certificate,
                        Confidence::Medium,
                        summary,
                        one(detail),
                        one("certificate approaching its renewal date".to_owned()),
                    );
                    raise(out, d);
                    assert(out.deep_view() =~= before + end_findings(sni@, *cert, today));
                }
            },
        },
    }
}

/// Certificate lifetimes: a serving certificate that is not valid yet, has
/// expired, or expires within the window the human TLS report annotates.
pub fn certificate_lifetime_rules(input: &DiagnosticInput, today: Option<i64>, out: &mut Vec<Diagnosis>)
    requires
        valid_day(today),
    ensures
        final(out).deep_view() == old(out).deep_view() + lifetimes(input.tls@, today),
{
    let ghost before = out.deep_view();
    assert(before + Seq::<DiagnosisModel>::empty() =~= before);
    for i in 0..input.tls.len()
        invariant
            valid_day(today),
            out.deep_view() == before + lifetimes(input.tls@.take(i as int), today),
    {
        let ghost front = lifetimes(input.tls@.take(i as int), today);
        assert(input.tls@.take(i as int + 1).drop_last() =~= input.tls@.take(i as int));
        let t = &input.tls[i];
        match &t.certificate {
            None => {},
            Some(cert) => {
                raise_start(out, t.sni.as_str(), cert, today);
                raise_end(out, t.sni.as_str(), cert, today);
                assert(out.deep_view() =~= before + (front + start_findings(t.sni@, *cert, today) + end_findings(
                    t.sni@,
                    *cert,
                    today,
                )));
            },
        }
    }
    assert(input.tls@.take(input.tls@.len() as int) =~= input.tls@);
}

/// Why a certificate may lack subject alternative names.
pub open spec fn no_sans_causes() -> Seq<Seq<char>> {
    seq![
        "mis-issued certificate without SANs (needs SANs for modern validation)"@,
        "server is presenting the wrong leaf certificate"@,
    ]
}

/// Why a certificate may not cover the presented name.
pub open spec fn mismatch_causes() -> Seq<Seq<char>> {
    seq![
        "wrong-host or shared-host certificate presented"@,
        "wildcard/exact SAN mismatch for the requested hostname"@,
        "connection is to an IP that the certificate does not cover"@,
    ]
}

/// What the names of a certificate amount to.
pub open spec fn coverage_of(sni: Seq<char>, cert: CertificateSummary) -> Seq<DiagnosisModel> {
    if cert.sans@.len() == 0 {
        seq![
            DiagnosisModel {
                severity: Severity::Medium,
                category: DiagnosticCategory::Certificate,
                confidence: Confidence::Medium,
                summary: "Certificate for "@ + sni + " has no Subject Alternative Names (subject "@ + cert.subject@
                    + ")"@,
                evidence: seq!["the served certificate lists no SANs to match the presented hostname"@],
                possible_causes: no_sans_causes(),
            },
        ]
    } else if !covers(sni, cert.sans@) {
        seq![
            DiagnosisModel {
                severity: Severity::Medium,
                category: DiagnosticCategory::Certificate,
                confidence: Confidence::Medium,
                summary: "Certificate for "@ + sni + " does not cover the presented hostname (subject "@ + cert.subject@
                    + ")"@,
                evidence: seq!["SANs "@ + join(texts(cert.sans@), ", "@) + " do not match presented SNI "@ + sni],
                possible_causes: mismatch_causes(),
            },
        ]
    } else {
        Seq::empty()
    }
}

/// What the names of the served certificates amount to.
pub open spec fn coverage(tls: Seq<TlsObservation>) -> Seq<DiagnosisModel>
    decreases tls.len(),
{
    if tls.len() == 0 {
        Seq::empty()
    } else {
        let front = coverage(tls.drop_last());
        match tls.last().certificate {
            None => front,
            Some(cert) => front + coverage_of(tls.last().sni@, cert),
        }
    }
}

/// Report a certificate that does not cover the presented name.
fn raise_coverage(out: &mut Vec<Diagnosis>, sni: &str, cert: &CertificateSummary)
    ensures
        final(out).deep_view() == old(out).deep_view() + coverage_of(sni@, *cert),
{
    let ghost before = out.deep_view();
    assert(before + Seq::<DiagnosisModel>::empty() =~= before);
    if cert.sans.len() == 0 {
        let causes = strings(
            vec![
                "mis-issued certificate without SANs (needs SANs for modern validation)",
                "server is presenting the wrong leaf certificate",
            ],
        );
        assert(texts(causes@) =~= no_sans_causes());
        let mut summary = glue3("Certificate for ", sni, " has no Subject Alternative Names (subject ");
        summary.append(cert.subject.as_str());
        summary.append(")");
        let d = finding(
            Severity::Medium,
            DiagnosticCategory::Certificate,
            Confidence::Medium,
            summary,
            one("the served certificate lists no SANs to match the presented hostname".to_owned()),
            causes,
        );
        raise(out, d);
        assert(out.deep_view() =~= before + coverage_of(sni@, *cert));
    } else if !cert_covers_hostname(sni, cert.sans.as_slice()) {
        let causes = strings(
            vec![
                "wrong-host or shared-host certificate presented",
                "wildcard/exact SAN mismatch for the requested hostname",
                "connection is to an IP that the certificate does not cover",
            ],
        );
        assert(texts(causes@) =~= mismatch_causes());
        let mut summary = glue3("Certificate for ", sni, " does not cover the presented hostname (subject ");
        summary.append(cert.subject.as_str());
        summary.append(")");
        let mut detail = glue3(
            "SANs ",
            join_texts(cert.sans.as_slice(), ", ").as_str(),
            " do not match presented SNI ",
        );
        detail.append(sni);
        let d = finding(
            Severity::Medium,
            DiagnosticCategory::Certificate,
            Confidence::Medium,
            summary,
            one(detail),
            causes,
        );
        raise(out, d);
        assert(out.deep_view() =~= before + coverage_of(sni@, *cert));
    }
}

/// Certificate coverage: a serving certificate whose subject alternative names
/// do not cover the name the client presented.
pub fn certificate_coverage_rules(input: &DiagnosticInput, out: &mut Vec<Diagnosis>)
    ensures
        final(out).deep_view() == old(out).deep_view() + coverage(input.tls@),
{
    let ghost before = out.deep_view();
    assert(before + Seq::<DiagnosisModel>::empty() =~= before);
    for i in 0..input.tls.len()
        invariant
            out.deep_view() == before + coverage(input.tls@.take(i as int)),
    {
        let ghost front = coverage(input.tls@.take(i as int));
        assert(input.tls@.take(i as int + 1).drop_last() =~= input.tls@.take(i as int));
        let t = &input.tls[i];
        match &t.certificate {
            None => {},
            Some(cert) => {
                raise_coverage(out, t.sni.as_str(), cert);
                assert(out.deep_view() =~= before + (front + coverage_of(t.sni@, *cert)));
            },
        }
    }
    assert(input.tls@.take(input.tls@.len() as int) =~= input.tls@);
}

// --- HTTP --------------------------------------------------------------------------------

/// Whether a failure of an HTTP probe belongs to the HTTP layer. An HTTP/3
/// probe runs over QUIC, so only a genuine HTTP/3-protocol error is one there;
/// over TCP everything but a TLS or certificate failure is.
pub open spec fn own_failure(h: HttpObservation) -> bool {
    match h.failure {
        None => false,
        Some(e) => if is_http3(h) {
            e.kind == FailureKind::Http || e.kind == FailureKind::Protocol
        } else {
            e.kind != FailureKind::Quic && e.kind != FailureKind::TlsHandshake && e.kind != FailureKind::Certificate
        },
    }
}

/// Whether a status is an HTTP-layer error: not 2xx, and not 3xx either, which
/// belongs to the redirect rule.
pub open spec fn is_error_status(status: u16) -> bool {
    !(200 <= status < 400)
}

/// Whether the HTTP layer failed: an error status, or a failure of its own on
/// a destination that TCP did not already fail to reach.
pub open spec fn layer_failed(h: HttpObservation, tcp: Seq<TcpObservation>) -> bool {
    (own_failure(h) && !refused(tcp, h.destination)) || (h.status matches Some(s) && is_error_status(s))
}

/// An HTTP-layer error: `{destination} -> {status or error}`.
pub open spec fn layer_text(h: HttpObservation) -> Seq<char> {
    h.destination.text() + " -> "@ + match h.status {
        Some(s) => dec(s as nat),
        None => "error"@,
    }
}

/// The HTTP-layer errors.
pub open spec fn layer_failures(http: Seq<HttpObservation>, tcp: Seq<TcpObservation>) -> Seq<Seq<char>>
    decreases http.len(),
{
    if http.len() == 0 {
        Seq::empty()
    } else if layer_failed(http.last(), tcp) {
        layer_failures(http.drop_last(), tcp).push(layer_text(http.last()))
    } else {
        layer_failures(http.drop_last(), tcp)
    }
}

/// Why the HTTP layer may fail.
pub open spec fn http_causes() -> Seq<Seq<char>> {
    seq![
        "application error / server-side issue"@,
        "redirect loop or auth required"@,
        "HTTP (not TLS) protocol problem"@,
    ]
}

/// What the HTTP layer amounts to.
pub open spec fn http_layer(
    hostname: Seq<char>,
    http: Seq<HttpObservation>,
    tcp: Seq<TcpObservation>,
) -> Seq<DiagnosisModel> {
    let failing = layer_failures(http, tcp);
    if failing.len() == 0 {
        Seq::empty()
    } else {
        seq![
            DiagnosisModel {
                severity: Severity::Low,
                category: DiagnosticCategory::Http,
                confidence: Confidence::Low,
                summary: "HTTP-layer errors returned by "@ + hostname,
                evidence: seq![join(failing, "; "@)],
                possible_causes: http_causes(),
            },
        ]
    }
}

/// Whether a failure of an HTTP probe belongs to the HTTP layer.
fn fails_itself(h: &HttpObservation) -> (r: bool)
    ensures
        r == own_failure(*h),
{
    match &h.failure {
        None => false,
        Some(e) => if http3(h) {
            matches!(e.kind, FailureKind::Http | FailureKind::Protocol)
        } else {
            !matches!(e.kind, FailureKind::Quic | FailureKind::TlsHandshake | FailureKind::Certificate)
        },
    }
}

/// Whether the HTTP layer failed.
fn fails_at_layer(h: &HttpObservation, tcp: &[TcpObservation]) -> (r: bool)
    ensures
        r == layer_failed(*h, tcp@),
{
    let inherited = any_tcp(tcp, h.destination, false);
    let error_status = match h.status {
        Some(s) => s < 200 || s >= 400,
        None => false,
    };
    (fails_itself(h) && !inherited) || error_status
}

/// An HTTP-layer error as text.
fn layer_error(h: &HttpObservation) -> (out: String)
    ensures
        out@ == layer_text(*h),
{
    let mut out = glue(h.destination.to_text().as_str(), " -> ");
    match h.status {
        Some(s) => push_dec(&mut out, s as u64),
        None => out.append("error"),
    }
    out
}

/// HTTP-layer errors (a non-2xx status or an HTTP-protocol-layer failure). A
/// 3xx status belongs to [`redirect_rules`].
pub fn http_layer_rules(input: &DiagnosticInput, out: &mut Vec<Diagnosis>)
    ensures
        final(out).deep_view() == old(out).deep_view() + http_layer(input.hostname@, input.http@, input.tcp@),
{
    let ghost before = out.deep_view();
    assert(before + Seq::<DiagnosisModel>::empty() =~= before);
    let mut failing: Vec<String> = Vec::new();
    assert(texts(failing@) =~= Seq::empty());
    for i in 0..input.http.len()
        invariant
            texts(failing@) == layer_failures(input.http@.take(i as int), input.tcp@),
    {
        assert(input.http@.take(i as int + 1).drop_last() =~= input.http@.take(i as int));
        let h = &input.http[i];
        if fails_at_layer(h, input.tcp) {
            push_text(&mut failing, layer_error(h));
        }
    }
    assert(input.http@.take(input.http@.len() as int) =~= input.http@);
    assert(texts(failing@).len() == failing@.len());
    if failing.len() > 0 {
        let causes = strings(
            vec![
                "application error / server-side issue",
                "redirect loop or auth required",
                "HTTP (not TLS) protocol problem",
            ],
        );
        assert(texts(causes@) =~= http_causes());
        let d = finding(
            Severity::Low,
            DiagnosticCategory::Http,
            Confidence::Low,
            glue("HTTP-layer errors returned by ", input.hostname),
            one(join_texts(failing.as_slice(), "; ")),
            causes,
        );
        raise(out, d);
    }
    assert(out.deep_view() =~= before + http_layer(input.hostname@, input.http@, input.tcp@));
}

/// Whether an observation is a redirect.
pub open spec fn redirects(h: HttpObservation) -> bool {
    h.failure is None && (h.status matches Some(s) && 300 <= s < 400)
}

/// A redirect: `{destination} -> {status} {target}`.
pub open spec fn redirect_text(h: HttpObservation) -> Seq<char> {
    h.destination.text() + " -> "@ + dec(h.status->0 as nat) + " "@ + match h.location {
        Some(target) => target@,
        None => "(no Location header)"@,
    }
}

/// The redirects.
pub open spec fn redirect_list(http: Seq<HttpObservation>) -> Seq<Seq<char>>
    decreases http.len(),
{
    if http.len() == 0 {
        Seq::empty()
    } else if redirects(http.last()) {
        redirect_list(http.drop_last()).push(redirect_text(http.last()))
    } else {
        redirect_list(http.drop_last())
    }
}

/// Why a response may redirect.
pub open spec fn redirect_causes() -> Seq<Seq<char>> {
    seq![
        "captive portal / login wall intercepting the request"@,
        "site or resource permanently moved"@,
        "authentication or session redirect"@,
        "CDN / middleware rewriting the URL"@,
    ]
}

/// What redirects amount to.
pub open spec fn redirection(hostname: Seq<char>, http: Seq<HttpObservation>) -> Seq<DiagnosisModel> {
    let found = redirect_list(http);
    if found.len() == 0 {
        Seq::empty()
    } else {
        seq![
            DiagnosisModel {
                severity: Severity::Low,
                category: DiagnosticCategory::Http,
                confidence: Confidence::Low,
                summary: "HTTP "@ + hostname + " which redirected"@,
                evidence: seq!["redirect observed ("@ + join(found, "; "@) + ")"@],
                possible_causes: redirect_causes(),
            },
        ]
    }
}

/// A redirect as text, where there is one.
fn redirect_line(h: &HttpObservation) -> (r: Option<String>)
    ensures
        r is Some == redirects(*h),
        r matches Some(s) ==> s@ == redirect_text(*h),
{
    if h.failure.is_some() {
        return None;
    }
    match h.status {
        Some(status) => {
            if 300 <= status && status < 400 {
                let mut out = glue(h.destination.to_text().as_str(), " -> ");
                push_dec(&mut out, status as u64);
                out.append(" ");
                match &h.location {
                    Some(target) => out.append(target.as_str()),
                    None => out.append("(no Location header)"),
                }
                Some(out)
            } else {
                None
            }
        },
        None => None,
    }
}

/// Redirects: a 3xx response on a reachable host, which is observed and never
/// followed.
pub fn redirect_rules(input: &DiagnosticInput, out: &mut Vec<Diagnosis>)
    ensures
        final(out).deep_view() == old(out).deep_view() + redirection(input.hostname@, input.http@),
{
    let ghost before = out.deep_view();
    assert(before + Seq::<DiagnosisModel>::empty() =~= before);
    let mut found: Vec<String> = Vec::new();
    assert(texts(found@) =~= Seq::empty());
    for i in 0..input.http.len()
        invariant
            texts(found@) == redirect_list(input.http@.take(i as int)),
    {
        assert(input.http@.take(i as int + 1).drop_last() =~= input.http@.take(i as int));
        match redirect_line(&input.http[i]) {
            Some(line) => push_text(&mut found, line),
            None => {},
        }
    }
    assert(input.http@.take(input.http@.len() as int) =~= input.http@);
    assert(texts(found@).len() == found@.len());
    if found.len() > 0 {
        let causes = strings(
            vec![
                "captive portal / login wall intercepting the request",
                "site or resource permanently moved",
                "authentication or session redirect",
                "CDN / middleware rewriting the URL",
            ],
        );
        assert(texts(causes@) =~= redirect_causes());
        let d = finding(
            Severity::Low,
            DiagnosticCategory::Http,
            Confidence::Low,
            glue3("HTTP ", input.hostname, " which redirected"),
            one(glue3("redirect observed (", join_texts(found.as_slice(), "; ").as_str(), ")")),
            causes,
        );
        raise(out, d);
    }
    assert(out.deep_view() =~= before + redirection(input.hostname@, input.http@));
}

/// Whether the head of a response arrived but its body never completed.
pub open spec fn stalled(h: HttpObservation) -> bool {
    h.failure is None && h.status is Some && h.body_bytes is None
}

/// The destinations whose responses stalled.
pub open spec fn stalled_list(http: Seq<HttpObservation>) -> Seq<Seq<char>>
    decreases http.len(),
{
    if http.len() == 0 {
        Seq::empty()
    } else if stalled(http.last()) {
        stalled_list(http.drop_last()).push(http.last().destination.text())
    } else {
        stalled_list(http.drop_last())
    }
}

/// Why a body may not complete.
pub open spec fn stalled_causes() -> Seq<Seq<char>> {
    seq![
        "response truncated by a proxy / load balancer"@,
        "server keep-alive without content-length or chunked coding"@,
        "connection reset or packet loss mid-transfer"@,
        "streaming endpoint that never finishes"@,
    ]
}

/// What stalled bodies amount to.
pub open spec fn truncation(hostname: Seq<char>, http: Seq<HttpObservation>) -> Seq<DiagnosisModel> {
    let found = stalled_list(http);
    if found.len() == 0 {
        Seq::empty()
    } else {
        seq![
            DiagnosisModel {
                severity: Severity::Low,
                category: DiagnosticCategory::Http,
                confidence: Confidence::Low,
                summary: "HTTP response body did not complete for "@ + hostname,
                evidence: seq!["headers received, body stalled ("@ + join(found, ", "@) + ")"@],
                possible_causes: stalled_causes(),
            },
        ]
    }
}

/// HTTP responses whose headers arrived but whose body never completed.
pub fn truncated_body_rules(input: &DiagnosticInput, out: &mut Vec<Diagnosis>)
    ensures
        final(out).deep_view() == old(out).deep_view() + truncation(input.hostname@, input.http@),
{
    let ghost before = out.deep_view();
    assert(before + Seq::<DiagnosisModel>::empty() =~= before);
    let mut found: Vec<String> = Vec::new();
    assert(texts(found@) =~= Seq::empty());
    for i in 0..input.http.len()
        invariant
            texts(found@) == stalled_list(input.http@.take(i as int)),
    {
        assert(input.http@.take(i as int + 1).drop_last() =~= input.http@.take(i as int));
        let h = &input.http[i];
        if h.failure.is_none() && h.status.is_some() && h.body_bytes.is_none() {
            push_text(&mut found, h.destination.to_text());
        }
    }
    assert(input.http@.take(input.http@.len() as int) =~= input.http@);
    assert(texts(found@).len() == found@.len());
    if found.len() > 0 {
        let causes = strings(
            vec![
                "response truncated by a proxy / load balancer",
                "server keep-alive without content-length or chunked coding",
                "connection reset or packet loss mid-transfer",
                "streaming endpoint that never finishes",
            ],
        );
        assert(texts(causes@) =~= stalled_causes());
        let d = finding(
            Severity::Low,
            DiagnosticCategory::Http,
            Confidence::Low,
            glue("HTTP response body did not complete for ", input.hostname),
            one(glue3("headers received, body stalled (", join_texts(found.as_slice(), ", ").as_str(), ")")),
            causes,
        );
        raise(out, d);
    }
    assert(out.deep_view() =~= before + truncation(input.hostname@, input.http@));
}

// --- QUIC --------------------------------------------------------------------------------

/// Whether a request completed without an error status.
pub open spec fn served(h: HttpObservation) -> bool {
    h.failure is None && (h.status matches Some(s) && s < 400)
}

/// Whether QUIC fails while some request is served: HTTP/3 was tried, every
/// try failed, and some request completed.
pub open spec fn quic_broken(http: Seq<HttpObservation>) -> bool {
    &&& exists|i: int| 0 <= i < http.len() && is_http3(#[trigger] http[i])
    &&& exists|i: int| 0 <= i < http.len() && served(#[trigger] http[i])
    &&& forall|i: int| 0 <= i < http.len() && is_http3(#[trigger] http[i]) ==> http[i].failure is Some
}

/// Why QUIC may fail alone.
pub open spec fn quic_causes() -> Seq<Seq<char>> {
    seq![
        "QUIC disabled / not offered by server"@,
        "UDP blocked or rate-limited on a path"@,
        "middlebox/NAT interfering with QUIC"@,
        "server prefers TCP"@,
    ]
}

/// What QUIC amounts to.
pub open spec fn quic_path(hostname: Seq<char>, http: Seq<HttpObservation>) -> Seq<DiagnosisModel> {
    if quic_broken(http) {
        seq![
            DiagnosisModel {
                severity: Severity::Low,
                category: DiagnosticCategory::Quic,
                confidence: Confidence::Medium,
                summary: "QUIC/HTTP3 fails while TCP+HTTPS succeeds for "@ + hostname,
                evidence: seq!["TCP path OK; UDP/QUIC path failed"@],
                possible_causes: quic_causes(),
            },
        ]
    } else {
        Seq::empty()
    }
}

/// QUIC/HTTP3 failing while the TCP path succeeds.
pub fn quic_rules(input: &DiagnosticInput, out: &mut Vec<Diagnosis>)
    ensures
        final(out).deep_view() == old(out).deep_view() + quic_path(input.hostname@, input.http@),
{
    let ghost before = out.deep_view();
    assert(before + Seq::<DiagnosisModel>::empty() =~= before);
    let mut tcp_http_ok = false;
    let mut quic_ok = false;
    let mut has_quic = false;
    for i in 0..input.http.len()
        invariant
            tcp_http_ok == exists|j: int| 0 <= j < i && served(#[trigger] input.http@[j]),
            has_quic == exists|j: int| 0 <= j < i && is_http3(#[trigger] input.http@[j]),
            !quic_ok == forall|j: int| 0 <= j < i && is_http3(#[trigger] input.http@[j]) ==> input.http@[j].failure is Some,
    {
        let h = &input.http[i];
        let good = match h.status {
            Some(s) => s < 400,
            None => false,
        };
        if h.failure.is_none() && good {
            assert(served(input.http@[i as int]));
            tcp_http_ok = true;
        }
        if http3(h) {
            assert(is_http3(input.http@[i as int]));
            has_quic = true;
            if h.failure.is_none() {
                assert(input.http@[i as int].failure is None);
                quic_ok = true;
            }
        }
    }
    if has_quic && tcp_http_ok && !quic_ok {
        let causes = strings(
            vec![
                "QUIC disabled / not offered by server",
                "UDP blocked or rate-limited on a path",
                "middlebox/NAT interfering with QUIC",
                "server prefers TCP",
            ],
        );
        assert(texts(causes@) =~= quic_causes());
        let d = finding(
            Severity::Low,
            DiagnosticCategory::Quic,
            Confidence::Medium,
            glue("QUIC/HTTP3 fails while TCP+HTTPS succeeds for ", input.hostname),
            one("TCP path OK; UDP/QUIC path failed".to_owned()),
            causes,
        );
        raise(out, d);
    }
    assert(out.deep_view() =~= before + quic_path(input.hostname@, input.http@));
}

// --- repeated probes ---------------------------------------------------------------------

/// The failure counts, each `{kind}: {count}`.
pub open spec fn count_texts(counts: Seq<FailureCount>) -> Seq<Seq<char>> {
    counts.map_values(|f: FailureCount| kind_count(f.kind, f.count as nat))
}

/// The failure counts in one line.
pub open spec fn counts_line(counts: Seq<FailureCount>) -> Seq<char> {
    if counts.len() == 0 {
        "no classified failures"@
    } else {
        join(count_texts(counts), ", "@)
    }
}

/// Whether repeated attempts both succeeded and failed.
pub open spec fn mixed(p: ProbeResult) -> bool {
    p.attempts > 1 && p.failures > 0 && p.successes > 0
}

/// Why repeated attempts may differ.
pub open spec fn mixed_causes() -> Seq<Seq<char>> {
    seq![
        "packet loss / unstable path"@,
        "congested transit"@,
        "flapping routing"@,
        "intermittent filtering"@,
    ]
}

/// The diagnosis for attempts that both succeeded and failed.
pub open spec fn intermittent(p: ProbeResult) -> DiagnosisModel {
    DiagnosisModel {
        severity: Severity::Medium,
        category: DiagnosticCategory::Intermittent,
        confidence: Confidence::High,
        summary: "Intermittent connectivity to "@ + p.destination.text() + " ("@ + p.success_rate.percent()
            + "% success)"@,
        evidence: seq![
            dec(p.successes as nat) + "/"@ + dec(p.attempts as nat) + " success"@,
            counts_line(p.failure_counts@),
        ],
        possible_causes: mixed_causes(),
    }
}

/// What repeated probes amount to.
pub open spec fn flapping(probes: Seq<ProbeResult>) -> Seq<DiagnosisModel>
    decreases probes.len(),
{
    if probes.len() == 0 {
        Seq::empty()
    } else if mixed(probes.last()) {
        flapping(probes.drop_last()).push(intermittent(probes.last()))
    } else {
        flapping(probes.drop_last())
    }
}

/// Whether the rates of probe results have a value.
pub open spec fn valid_probes(probes: Seq<ProbeResult>) -> bool {
    forall|i: int| 0 <= i < probes.len() ==> (#[trigger] probes[i]).success_rate.wf()
}

/// Summarize the classified failure counts of a probe result.
fn failure_summary_opt(p: &ProbeResult) -> (out: String)
    ensures
        out@ == counts_line(p.failure_counts@),
{
    let counts = &p.failure_counts;
    if counts.len() == 0 {
        return "no classified failures".to_owned();
    }
    let mut parts: Vec<String> = Vec::new();
    assert(texts(parts@) =~= count_texts(counts@.take(0)));
    for i in 0..counts.len()
        invariant
            texts(parts@) == count_texts(counts@.take(i as int)),
    {
        push_text(&mut parts, kind_count_text(counts[i].kind, counts[i].count));
        assert(count_texts(counts@.take(i as int + 1)) =~= count_texts(counts@.take(i as int)).push(
            kind_count(counts@[i as int].kind, counts@[i as int].count as nat),
        ));
    }
    assert(counts@.take(counts@.len() as int) =~= counts@);
    join_texts(parts.as_slice(), ", ")
}

/// Intermittent connectivity from repeated-probe results.
pub fn intermittent_rules(input: &DiagnosticInput, out: &mut Vec<Diagnosis>)
    requires
        valid_probes(input.probes@),
    ensures
        final(out).deep_view() == old(out).deep_view() + flapping(input.probes@),
{
    let ghost before = out.deep_view();
    assert(before + Seq::<DiagnosisModel>::empty() =~= before);
    for i in 0..input.probes.len()
        invariant
            valid_probes(input.probes@),
            out.deep_view() == before + flapping(input.probes@.take(i as int)),
    {
        let ghost front = flapping(input.probes@.take(i as int));
        assert(input.probes@.take(i as int + 1).drop_last() =~= input.probes@.take(i as int));
        let p = &input.probes[i];
        if p.attempts > 1 && p.failures > 0 && p.successes > 0 {
            let causes = strings(
                vec![
                    "packet loss / unstable path",
                    "congested transit",
                    "flapping routing",
                    "intermittent filtering",
                ],
            );
            assert(texts(causes@) =~= mixed_causes());
            let mut summary = glue3("Intermittent connectivity to ", p.destination.to_text().as_str(), " (");
            summary.append(p.success_rate.percent_text().as_str());
            summary.append("% success)");
            let mut tally = String::new();
            push_dec(&mut tally, p.successes as u64);
            assert(tally@ =~= dec(p.successes as nat));
            tally.append("/");
            push_dec(&mut tally, p.attempts as u64);
            tally.append(" success");
            let d = finding(
                Severity::Medium,
                DiagnosticCategory::Intermittent,
                Confidence::High,
                summary,
                two(tally, failure_summary_opt(p)),
                causes,
            );
            raise(out, d);
            assert(out.deep_view() =~= before + front.push(intermittent(*p)));
        }
    }
    assert(input.probes@.take(input.probes@.len() as int) =~= input.probes@);
}

} // verus!
