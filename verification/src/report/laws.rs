//! What the reports say: every observation is named in them, with what was
//! measured of it. The laws speak of uncolored reports; color changes nothing
//! that can be read.

use super::cert::{cert_text, covers, days_left, sans_text};
use super::diagnosis::{anomalies, diagnosis_report, diagnosis_rows, diagnosis_text, items};
use super::dns::{answer_text, dns_row, record_texts};
use super::http::{header_lines, http_report, http_row, http_rows, is_shown, shown_headers};
use super::layout::{byte_len, by_class, left, right, safe_char, safe_text, spaces};
use super::repeat::{
    distributions, dns_repeat_report, failure_lines, failure_tokens, probe_report, probe_row, probe_rows, repeat_row,
    repeat_rows, status_tokens,
};
use super::route::{
    address_texts, bound, hop_notes, hop_row, hop_rows, hop_width, notes_text, route_repeat_report, route_report,
    stats_cell, stats_row, stats_rows, stats_width,
};
use super::transport::{destination_width, tcp_report, tcp_row, tcp_rows, tls_report, tls_row, tls_rows};
use crate::model::diagnosis::DiagnosisModel;
use crate::model::dns::{record_text, resolver_text};
use crate::model::{
    CertificateSummary, DiagnosticCategory, DnsObservation, DnsRepeatResult, FailureCount, HttpObservation, ProbeResult, Severity,
    TcpObservation, TlsObservation,
};
use crate::net::hex_digit_value;
use crate::route::{RouteHop, RouteHopStats, RouteRepeat};
use crate::text::{dec, group_occurrence, has_text, lemma_in_joined, lower, texts};
use vstd::prelude::*;

verus! {

// --- connects and handshakes -------------------------------------------------------------

/// Each row is among the rows.
proof fn lemma_tcp_rows(s: Seq<TcpObservation>, width: nat, i: int, p: Seq<char>)
    requires
        0 <= i < s.len(),
        has_text(tcp_row(false, s[i], width), p),
    ensures
        has_text(tcp_rows(false, s, width), p),
    decreases s.len(),
{
    broadcast use group_occurrence;

    if i < s.len() - 1 {
        lemma_tcp_rows(s.drop_last(), width, i, p);
    }
}

/// The connect report has a line for each destination: with its latency where the
/// connect succeeded, else with the mode of its failure.
pub proof fn lemma_tcp_report(s: Seq<TcpObservation>, i: int)
    requires
        0 <= i < s.len(),
    ensures
        ({
            let front = "  "@ + left(s[i].destination.text(), destination_width(s)) + " "@;
            &&& s[i].success && s[i].latency_ms is Some ==> has_text(
                tcp_report(false, s),
                front + ("PASS      "@ + (dec(s[i].latency_ms->0 as nat) + " ms"@)) + "\n"@,
            )
            &&& !s[i].success && s[i].failure is Some ==> has_text(
                tcp_report(false, s),
                front + left(s[i].failure->0.kind.text(), 10) + "\n"@,
            )
        }),
{
    broadcast use group_occurrence;

    let p = tcp_row(false, s[i], destination_width(s));
    lemma_tcp_rows(s, destination_width(s), i, p);
}

/// Each row is among the rows.
proof fn lemma_tls_rows(s: Seq<TlsObservation>, today: Option<i64>, i: int, p: Seq<char>)
    requires
        0 <= i < s.len(),
        has_text(tls_row(false, s[i], today), p),
    ensures
        has_text(tls_rows(false, s, today), p),
    decreases s.len(),
{
    broadcast use group_occurrence;

    if i < s.len() - 1 {
        lemma_tls_rows(s.drop_last(), today, i, p);
    }
}

/// The handshake report names each destination and, where the handshake
/// succeeded, says how long it took and whether the certificate covers the
/// presented name.
pub proof fn lemma_tls_report(s: Seq<TlsObservation>, today: Option<i64>, i: int)
    requires
        0 <= i < s.len(),
    ensures
        has_text(tls_report(false, s, today), "  "@ + s[i].destination.text() + "\n"@),
        s[i].success && s[i].latency_ms is Some ==> has_text(
            tls_report(false, s, today),
            "    latency: "@ + (dec(s[i].latency_ms->0 as nat) + " ms"@) + "\n"@,
        ),
        s[i].success && s[i].version is Some ==> has_text(
            tls_report(false, s, today),
            "    TLS: "@ + s[i].version->0@ + "\n"@,
        ),
        s[i].success && s[i].certificate is Some ==> has_text(
            tls_report(false, s, today),
            ("    covers "@ + s[i].sni@ + ": "@) + (if covers(s[i].sni@, s[i].certificate->0.sans@) {
                "yes"@
            } else {
                "no"@
            }) + "\n"@,
        ),
        !s[i].success && s[i].failure is Some ==> has_text(
            tls_report(false, s, today),
            "    "@ + (s[i].failure->0.kind.text() + " ("@ + s[i].failure->0.message@ + ")"@) + "\n"@,
        ),
{
    broadcast use group_occurrence;

    let o = s[i];
    let r = tls_row(false, o, today);
    let a = "  "@ + o.destination.text() + "\n"@;
    assert(has_text(r, a));
    lemma_tls_rows(s, today, i, a);
    if o.success && o.latency_ms is Some {
        let p = "    latency: "@ + (dec(o.latency_ms->0 as nat) + " ms"@) + "\n"@;
        assert(has_text(r, p));
        lemma_tls_rows(s, today, i, p);
    }
    if o.success && o.version is Some {
        let p = "    TLS: "@ + o.version->0@ + "\n"@;
        assert(has_text(r, p));
        lemma_tls_rows(s, today, i, p);
    }
    if o.success && o.certificate is Some {
        let p = ("    covers "@ + o.sni@ + ": "@) + (if covers(o.sni@, o.certificate->0.sans@) {
            "yes"@
        } else {
            "no"@
        }) + "\n"@;
        assert(has_text(r, p));
        lemma_tls_rows(s, today, i, p);
    }
    if !o.success && o.failure is Some {
        let p = "    "@ + (o.failure->0.kind.text() + " ("@ + o.failure->0.message@ + ")"@) + "\n"@;
        assert(has_text(r, p));
        lemma_tls_rows(s, today, i, p);
    }
}

// --- requests ----------------------------------------------------------------------------

/// Each row is among the rows.
proof fn lemma_http_rows(s: Seq<HttpObservation>, today: Option<i64>, i: int, p: Seq<char>)
    requires
        0 <= i < s.len(),
        has_text(http_row(false, s[i], today), p),
    ensures
        has_text(http_rows(false, s, today), p),
    decreases s.len(),
{
    broadcast use group_occurrence;

    if i < s.len() - 1 {
        lemma_http_rows(s.drop_last(), today, i, p);
    }
}

/// The request report names each destination and, where there was a response,
/// says its status, redirect target, size, latency and time to first byte.
pub proof fn lemma_http_report(plain: bool, s: Seq<HttpObservation>, today: Option<i64>, i: int)
    requires
        0 <= i < s.len(),
    ensures
        has_text(http_report(false, plain, s, today), "  "@ + s[i].destination.text() + "\n"@),
        s[i].failure is None && s[i].status is Some && s[i].protocol is Some ==> has_text(
            http_report(false, plain, s, today),
            ("    "@ + s[i].protocol->0@ + " "@) + dec(s[i].status->0 as nat) + "\n"@,
        ),
        s[i].failure is None && s[i].location is Some ==> has_text(
            http_report(false, plain, s, today),
            "    redirect: "@ + s[i].location->0@ + "\n"@,
        ),
        s[i].failure is None && s[i].latency_ms is Some ==> has_text(
            http_report(false, plain, s, today),
            "    latency: "@ + (dec(s[i].latency_ms->0 as nat) + " ms"@) + "\n"@,
        ),
        s[i].failure is None && s[i].ttfb_ms is Some ==> has_text(
            http_report(false, plain, s, today),
            "    ttfb:    "@ + (dec(s[i].ttfb_ms->0 as nat) + " ms"@) + "\n"@,
        ),
        s[i].failure is None && s[i].body_bytes is Some && !s[i].body_capped ==> has_text(
            http_report(false, plain, s, today),
            "    body: "@ + dec(s[i].body_bytes->0 as nat) + " bytes\n"@,
        ),
        s[i].failure is Some && s[i].protocol is Some ==> has_text(
            http_report(false, plain, s, today),
            "    "@ + (s[i].protocol->0@ + " "@ + (s[i].failure->0.kind.text() + " ("@ + s[i].failure->0.message@ + ")"@))
                + "\n"@,
        ),
{
    broadcast use group_occurrence;

    reveal(http_row);
    let o = s[i];
    let r = http_row(false, o, today);
    let a = "  "@ + o.destination.text() + "\n"@;
    assert(has_text(r, a));
    lemma_http_rows(s, today, i, a);
    if o.failure is None && o.status is Some && o.protocol is Some {
        let p = ("    "@ + o.protocol->0@ + " "@) + dec(o.status->0 as nat) + "\n"@;
        assert(has_text(r, p));
        lemma_http_rows(s, today, i, p);
    }
    if o.failure is None && o.location is Some {
        let p = "    redirect: "@ + o.location->0@ + "\n"@;
        assert(has_text(r, p));
        lemma_http_rows(s, today, i, p);
    }
    if o.failure is None && o.latency_ms is Some {
        let p = "    latency: "@ + (dec(o.latency_ms->0 as nat) + " ms"@) + "\n"@;
        assert(has_text(r, p));
        lemma_http_rows(s, today, i, p);
    }
    if o.failure is None && o.ttfb_ms is Some {
        let p = "    ttfb:    "@ + (dec(o.ttfb_ms->0 as nat) + " ms"@) + "\n"@;
        assert(has_text(r, p));
        lemma_http_rows(s, today, i, p);
    }
    if o.failure is None && o.body_bytes is Some && !o.body_capped {
        let p = "    body: "@ + dec(o.body_bytes->0 as nat) + " bytes\n"@;
        assert(has_text(r, p));
        lemma_http_rows(s, today, i, p);
    }
    if o.failure is Some && o.protocol is Some {
        let p = "    "@ + (o.protocol->0@ + " "@ + (o.failure->0.kind.text() + " ("@ + o.failure->0.message@ + ")"@))
            + "\n"@;
        assert(has_text(r, p));
        lemma_http_rows(s, today, i, p);
    }
}

// --- repeated lookups and probes ---------------------------------------------------------

/// Each row is among the rows.
proof fn lemma_repeat_rows(s: Seq<DnsRepeatResult>, i: int, p: Seq<char>)
    requires
        0 <= i < s.len(),
        has_text(repeat_row(false, s[i]), p),
    ensures
        has_text(repeat_rows(false, s), p),
    decreases s.len(),
{
    broadcast use group_occurrence;

    if i < s.len() - 1 {
        lemma_repeat_rows(s.drop_last(), i, p);
    }
}

/// The report of repeated lookups has, for each resolver and record type, the
/// counts, the lifetime of the records and the latencies.
pub proof fn lemma_dns_repeat_report(host: Seq<char>, s: Seq<DnsRepeatResult>, i: int)
    requires
        0 <= i < s.len(),
    ensures
        has_text(dns_repeat_report(false, host, s), "  "@ + (resolver_text(s[i].resolver.deep_view()) + " "@ + s[i].record_type.text()) + "\n"@),
        has_text(dns_repeat_report(false, host, s), "    attempts: "@ + dec(s[i].attempts as nat) + "\n"@),
        has_text(dns_repeat_report(false, host, s), "    success:  "@ + (dec(s[i].successes as nat) + " ("@ + s[i].success_rate.percent() + "%)"@) + "\n"@),
        has_text(dns_repeat_report(false, host, s), "    failure:  "@ + dec(s[i].failures as nat) + "\n"@),
        s[i].ttl is Some ==> has_text(dns_repeat_report(false, host, s), "    ttl: "@ + (dec(s[i].ttl->0 as nat) + " s"@) + "\n"@),
        s[i].latency.count > 0 && s[i].latency.min is Some ==> has_text(dns_repeat_report(false, host, s), "      min:  "@ + (dec(s[i].latency.min->0 as nat) + " ms"@) + "\n"@),
        s[i].latency.count > 0 && s[i].latency.p50 is Some ==> has_text(dns_repeat_report(false, host, s), "      p50:  "@ + (dec(s[i].latency.p50->0 as nat) + " ms"@) + "\n"@),
        s[i].latency.count > 0 && s[i].latency.p95 is Some ==> has_text(dns_repeat_report(false, host, s), "      p95:  "@ + (dec(s[i].latency.p95->0 as nat) + " ms"@) + "\n"@),
        s[i].latency.count > 0 && s[i].latency.p99 is Some ==> has_text(dns_repeat_report(false, host, s), "      p99:  "@ + (dec(s[i].latency.p99->0 as nat) + " ms"@) + "\n"@),
        s[i].latency.count > 0 && s[i].latency.max is Some ==> has_text(dns_repeat_report(false, host, s), "      max:  "@ + (dec(s[i].latency.max->0 as nat) + " ms"@) + "\n"@),
        s[i].latency.count > 0 && s[i].latency.jitter is Some ==> has_text(dns_repeat_report(false, host, s), "      jitter: "@ + (dec(s[i].latency.jitter->0 as nat) + " ms"@) + "\n"@),
{
    broadcast use group_occurrence;

    reveal(repeat_row);
    let r = repeat_row(false, s[i]);
    let p0 = "  "@ + (resolver_text(s[i].resolver.deep_view()) + " "@ + s[i].record_type.text()) + "\n"@;
    assert(has_text(r, p0));
    lemma_repeat_rows(s, i, p0);
    let p1 = "    attempts: "@ + dec(s[i].attempts as nat) + "\n"@;
    assert(has_text(r, p1));
    lemma_repeat_rows(s, i, p1);
    let p2 = "    success:  "@ + (dec(s[i].successes as nat) + " ("@ + s[i].success_rate.percent() + "%)"@) + "\n"@;
    assert(has_text(r, p2));
    lemma_repeat_rows(s, i, p2);
    let p3 = "    failure:  "@ + dec(s[i].failures as nat) + "\n"@;
    assert(has_text(r, p3));
    lemma_repeat_rows(s, i, p3);
    if s[i].ttl is Some {
        let p = "    ttl: "@ + (dec(s[i].ttl->0 as nat) + " s"@) + "\n"@;
        assert(has_text(r, p));
        lemma_repeat_rows(s, i, p);
    }
    if s[i].latency.count > 0 && s[i].latency.min is Some {
        let p = "      min:  "@ + (dec(s[i].latency.min->0 as nat) + " ms"@) + "\n"@;
        assert(has_text(r, p));
        lemma_repeat_rows(s, i, p);
    }
    if s[i].latency.count > 0 && s[i].latency.p50 is Some {
        let p = "      p50:  "@ + (dec(s[i].latency.p50->0 as nat) + " ms"@) + "\n"@;
        assert(has_text(r, p));
        lemma_repeat_rows(s, i, p);
    }
    if s[i].latency.count > 0 && s[i].latency.p95 is Some {
        let p = "      p95:  "@ + (dec(s[i].latency.p95->0 as nat) + " ms"@) + "\n"@;
        assert(has_text(r, p));
        lemma_repeat_rows(s, i, p);
    }
    if s[i].latency.count > 0 && s[i].latency.p99 is Some {
        let p = "      p99:  "@ + (dec(s[i].latency.p99->0 as nat) + " ms"@) + "\n"@;
        assert(has_text(r, p));
        lemma_repeat_rows(s, i, p);
    }
    if s[i].latency.count > 0 && s[i].latency.max is Some {
        let p = "      max:  "@ + (dec(s[i].latency.max->0 as nat) + " ms"@) + "\n"@;
        assert(has_text(r, p));
        lemma_repeat_rows(s, i, p);
    }
    if s[i].latency.count > 0 && s[i].latency.jitter is Some {
        let p = "      jitter: "@ + (dec(s[i].latency.jitter->0 as nat) + " ms"@) + "\n"@;
        assert(has_text(r, p));
        lemma_repeat_rows(s, i, p);
    }
}

/// Each failure mode has its line.
proof fn lemma_failure_lines(s: Seq<FailureCount>, j: int, p: Seq<char>)
    requires
        0 <= j < s.len(),
        p == "      - "@ + (s[j].kind.text() + ": "@ + dec(s[j].count as nat)) + "\n"@,
    ensures
        has_text(failure_lines(false, s), p),
    decreases s.len(),
{
    broadcast use group_occurrence;

    if j < s.len() - 1 {
        lemma_failure_lines(s.drop_last(), j, p);
    }
}

/// The report of repeated lookups lists each failure mode with its count.
pub proof fn lemma_dns_repeat_failures(host: Seq<char>, s: Seq<DnsRepeatResult>, i: int, j: int)
    requires
        0 <= i < s.len(),
        0 <= j < s[i].failure_counts@.len(),
    ensures
        ({
            let f = s[i].failure_counts@[j];
            has_text(
                dns_repeat_report(false, host, s),
                "      - "@ + (f.kind.text() + ": "@ + dec(f.count as nat)) + "\n"@,
            )
        }),
{
    broadcast use group_occurrence;

    reveal(repeat_row);
    let f = s[i].failure_counts@[j];
    let p = "      - "@ + (f.kind.text() + ": "@ + dec(f.count as nat)) + "\n"@;
    lemma_failure_lines(s[i].failure_counts@, j, p);
    assert(has_text(repeat_row(false, s[i]), p));
    lemma_repeat_rows(s, i, p);
}

/// Each row is among the rows.
proof fn lemma_probe_rows(s: Seq<ProbeResult>, i: int, p: Seq<char>)
    requires
        0 <= i < s.len(),
        has_text(probe_row(false, s[i]), p),
    ensures
        has_text(probe_rows(false, s), p),
    decreases s.len(),
{
    broadcast use group_occurrence;

    if i < s.len() - 1 {
        lemma_probe_rows(s.drop_last(), i, p);
    }
}

/// The report of repeated probes has, for each destination, the counts.
pub proof fn lemma_probe_report_counts(s: Seq<ProbeResult>, i: int)
    requires
        0 <= i < s.len(),
    ensures
        has_text(probe_report(false, s), "  "@ + s[i].destination.text() + "\n"@),
        has_text(probe_report(false, s), "    attempts: "@ + dec(s[i].attempts as nat) + "\n"@),
        has_text(probe_report(false, s), "    success:  "@ + (dec(s[i].successes as nat) + " ("@ + s[i].success_rate.percent() + "%)"@) + "\n"@),
        has_text(probe_report(false, s), "    failure:  "@ + dec(s[i].failures as nat) + "\n"@),
{
    broadcast use group_occurrence;

    reveal(probe_row);
    let r = probe_row(false, s[i]);
    let p0 = "  "@ + s[i].destination.text() + "\n"@;
    assert(has_text(r, p0));
    lemma_probe_rows(s, i, p0);
    let p1 = "    attempts: "@ + dec(s[i].attempts as nat) + "\n"@;
    assert(has_text(r, p1));
    lemma_probe_rows(s, i, p1);
    let p2 = "    success:  "@ + (dec(s[i].successes as nat) + " ("@ + s[i].success_rate.percent() + "%)"@) + "\n"@;
    assert(has_text(r, p2));
    lemma_probe_rows(s, i, p2);
    let p3 = "    failure:  "@ + dec(s[i].failures as nat) + "\n"@;
    assert(has_text(r, p3));
    lemma_probe_rows(s, i, p3);
}

/// The report of repeated probes has the latencies of the successful attempts.
pub proof fn lemma_probe_report_latencies(s: Seq<ProbeResult>, i: int)
    requires
        0 <= i < s.len(),
    ensures
        s[i].latency.count > 0 && s[i].latency.min is Some ==> has_text(probe_report(false, s), "      min:  "@ + (dec(s[i].latency.min->0 as nat) + " ms"@) + "\n"@),
        s[i].latency.count > 0 && s[i].latency.p50 is Some ==> has_text(probe_report(false, s), "      p50:  "@ + (dec(s[i].latency.p50->0 as nat) + " ms"@) + "\n"@),
        s[i].latency.count > 0 && s[i].latency.p90 is Some ==> has_text(probe_report(false, s), "      p90:  "@ + (dec(s[i].latency.p90->0 as nat) + " ms"@) + "\n"@),
        s[i].latency.count > 0 && s[i].latency.p95 is Some ==> has_text(probe_report(false, s), "      p95:  "@ + (dec(s[i].latency.p95->0 as nat) + " ms"@) + "\n"@),
        s[i].latency.count > 0 && s[i].latency.p99 is Some ==> has_text(probe_report(false, s), "      p99:  "@ + (dec(s[i].latency.p99->0 as nat) + " ms"@) + "\n"@),
        s[i].latency.count > 0 && s[i].latency.max is Some ==> has_text(probe_report(false, s), "      max:  "@ + (dec(s[i].latency.max->0 as nat) + " ms"@) + "\n"@),
        s[i].latency.count > 0 && s[i].latency.jitter is Some ==> has_text(probe_report(false, s), "      jitter: "@ + (dec(s[i].latency.jitter->0 as nat) + " ms"@) + "\n"@),
{
    broadcast use group_occurrence;

    reveal(probe_row);
    let r = probe_row(false, s[i]);
    if s[i].latency.count > 0 && s[i].latency.min is Some {
        let p = "      min:  "@ + (dec(s[i].latency.min->0 as nat) + " ms"@) + "\n"@;
        assert(has_text(r, p));
        lemma_probe_rows(s, i, p);
    }
    if s[i].latency.count > 0 && s[i].latency.p50 is Some {
        let p = "      p50:  "@ + (dec(s[i].latency.p50->0 as nat) + " ms"@) + "\n"@;
        assert(has_text(r, p));
        lemma_probe_rows(s, i, p);
    }
    if s[i].latency.count > 0 && s[i].latency.p90 is Some {
        let p = "      p90:  "@ + (dec(s[i].latency.p90->0 as nat) + " ms"@) + "\n"@;
        assert(has_text(r, p));
        lemma_probe_rows(s, i, p);
    }
    if s[i].latency.count > 0 && s[i].latency.p95 is Some {
        let p = "      p95:  "@ + (dec(s[i].latency.p95->0 as nat) + " ms"@) + "\n"@;
        assert(has_text(r, p));
        lemma_probe_rows(s, i, p);
    }
    if s[i].latency.count > 0 && s[i].latency.p99 is Some {
        let p = "      p99:  "@ + (dec(s[i].latency.p99->0 as nat) + " ms"@) + "\n"@;
        assert(has_text(r, p));
        lemma_probe_rows(s, i, p);
    }
    if s[i].latency.count > 0 && s[i].latency.max is Some {
        let p = "      max:  "@ + (dec(s[i].latency.max->0 as nat) + " ms"@) + "\n"@;
        assert(has_text(r, p));
        lemma_probe_rows(s, i, p);
    }
    if s[i].latency.count > 0 && s[i].latency.jitter is Some {
        let p = "      jitter: "@ + (dec(s[i].latency.jitter->0 as nat) + " ms"@) + "\n"@;
        assert(has_text(r, p));
        lemma_probe_rows(s, i, p);
    }
}

/// The report of repeated probes has the times to the first byte.
pub proof fn lemma_probe_report_first_bytes(s: Seq<ProbeResult>, i: int)
    requires
        0 <= i < s.len(),
    ensures
        s[i].ttfb.count > 0 && s[i].ttfb.min is Some ==> has_text(probe_report(false, s), "      min:  "@ + (dec(s[i].ttfb.min->0 as nat) + " ms"@) + "\n"@),
        s[i].ttfb.count > 0 && s[i].ttfb.p50 is Some ==> has_text(probe_report(false, s), "      p50:  "@ + (dec(s[i].ttfb.p50->0 as nat) + " ms"@) + "\n"@),
        s[i].ttfb.count > 0 && s[i].ttfb.p95 is Some ==> has_text(probe_report(false, s), "      p95:  "@ + (dec(s[i].ttfb.p95->0 as nat) + " ms"@) + "\n"@),
        s[i].ttfb.count > 0 && s[i].ttfb.max is Some ==> has_text(probe_report(false, s), "      max:  "@ + (dec(s[i].ttfb.max->0 as nat) + " ms"@) + "\n"@),
{
    broadcast use group_occurrence;

    reveal(probe_row);
    let r = probe_row(false, s[i]);
    if s[i].ttfb.count > 0 && s[i].ttfb.min is Some {
        let p = "      min:  "@ + (dec(s[i].ttfb.min->0 as nat) + " ms"@) + "\n"@;
        assert(has_text(r, p));
        lemma_probe_rows(s, i, p);
    }
    if s[i].ttfb.count > 0 && s[i].ttfb.p50 is Some {
        let p = "      p50:  "@ + (dec(s[i].ttfb.p50->0 as nat) + " ms"@) + "\n"@;
        assert(has_text(r, p));
        lemma_probe_rows(s, i, p);
    }
    if s[i].ttfb.count > 0 && s[i].ttfb.p95 is Some {
        let p = "      p95:  "@ + (dec(s[i].ttfb.p95->0 as nat) + " ms"@) + "\n"@;
        assert(has_text(r, p));
        lemma_probe_rows(s, i, p);
    }
    if s[i].ttfb.count > 0 && s[i].ttfb.max is Some {
        let p = "      max:  "@ + (dec(s[i].ttfb.max->0 as nat) + " ms"@) + "\n"@;
        assert(has_text(r, p));
        lemma_probe_rows(s, i, p);
    }
}

// --- routes ------------------------------------------------------------------------------

/// Each row is among the rows.
proof fn lemma_hop_rows(s: Seq<RouteHop>, width: nat, i: int, p: Seq<char>)
    requires
        0 <= i < s.len(),
        has_text(hop_row(false, s[i], width), p),
    ensures
        has_text(hop_rows(false, s, width), p),
    decreases s.len(),
{
    broadcast use group_occurrence;

    if i < s.len() - 1 {
        lemma_hop_rows(s.drop_last(), width, i, p);
    }
}

/// The route report has a line for each hop: with the address and the round trip
/// where the hop answered, else with a star.
pub proof fn lemma_route_report(s: Seq<RouteHop>, i: int)
    requires
        0 <= i < s.len(),
    ensures
        ({
            let front = "  "@ + right(dec(s[i].ttl as nat), 2) + "  "@;
            &&& !s[i].lost && s[i].addr is Some && s[i].hostname is None && s[i].rtt_ms is Some ==> has_text(
                route_report(false, s),
                front + left(s[i].addr->0.text(), hop_width(s)) + " "@ + (dec(s[i].rtt_ms->0 as nat) + " ms"@)
                    + "\n"@,
            )
            &&& !s[i].lost && s[i].addr is Some && s[i].hostname is Some && s[i].hostname->0@.len() > 0
                && s[i].rtt_ms is Some ==> has_text(
                route_report(false, s),
                front + left(s[i].hostname->0@ + " ("@ + s[i].addr->0.text() + ")"@, hop_width(s)) + " "@ + (dec(
                    s[i].rtt_ms->0 as nat,
                ) + " ms"@) + "\n"@,
            )
            &&& s[i].lost || s[i].addr is None ==> has_text(route_report(false, s), front + "*"@ + "\n"@)
        }),
{
    broadcast use group_occurrence;

    lemma_hop_rows(s, hop_width(s), i, hop_row(false, s[i], hop_width(s)));
}

/// Each row is among the rows.
proof fn lemma_stats_rows(s: Seq<RouteHopStats>, runs: nat, width: nat, i: int, p: Seq<char>)
    requires
        0 <= i < s.len(),
        has_text(stats_row(false, s[i], runs, width), p),
    ensures
        has_text(stats_rows(false, s, runs, width), p),
    decreases s.len(),
{
    broadcast use group_occurrence;

    if i < s.len() - 1 {
        lemma_stats_rows(s.drop_last(), runs, width, i, p);
    }
}

/// The row of a hop says how many of the runs it answered.
proof fn lemma_answered(h: RouteHopStats, runs: nat, width: nat)
    requires
        h.answered > 0,
    ensures
        has_text(
            stats_row(false, h, runs, width),
            " "@ + dec(h.answered as nat) + "/"@ + dec(runs) + " answered"@,
        ),
{
    broadcast use group_occurrence;

    let a = "  "@ + right(dec(h.ttl as nat), 2) + "  "@ + left(stats_cell(h), width);
    let p = " "@ + dec(h.answered as nat) + "/"@ + dec(runs) + " answered"@;
    let b = notes_text(hop_notes(false, h)) + "\n"@;
    assert(stats_row(false, h, runs, width) =~= a + p + b);
}

/// Each bound of the round trips that is known is among the notes.
proof fn lemma_notes(h: RouteHopStats)
    ensures
        h.rtt.min is Some ==> hop_notes(false, h).contains("min "@ + dec(h.rtt.min->0 as nat) + " ms"@),
        h.rtt.p50 is Some ==> hop_notes(false, h).contains("p50 "@ + dec(h.rtt.p50->0 as nat) + " ms"@),
        h.rtt.max is Some ==> hop_notes(false, h).contains("max "@ + dec(h.rtt.max->0 as nat) + " ms"@),
        h.path_changed ==> hop_notes(false, h).contains("path changed"@),
{
    let notes = hop_notes(false, h);
    let a = bound("min "@, h.rtt.min);
    let b = bound("p50 "@, h.rtt.p50);
    let c = bound("max "@, h.rtt.max);
    if h.rtt.min is Some {
        assert(notes[0] == a[0]);
    }
    if h.rtt.p50 is Some {
        assert(notes[a.len() as int] == b[0]);
    }
    if h.rtt.max is Some {
        assert(notes[(a.len() + b.len()) as int] == c[0]);
    }
    if h.path_changed {
        assert(notes.last() == "path changed"@);
    }
}

/// The report of repeated routes says of each hop how many of the runs it
/// answered, at which addresses, and its smallest, middle and largest round trip.
pub proof fn lemma_route_repeat_report(r: RouteRepeat, i: int)
    requires
        0 <= i < r.hops@.len(),
    ensures
        ({
            let h = r.hops@[i];
            let all = route_repeat_report(false, r);
            &&& h.answered > 0 ==> has_text(
                all,
                " "@ + dec(h.answered as nat) + "/"@ + dec(r.runs as nat) + " answered"@,
            )
            &&& h.answered > 0 && h.rtt.min is Some ==> has_text(all, "min "@ + dec(h.rtt.min->0 as nat) + " ms"@)
            &&& h.answered > 0 && h.rtt.p50 is Some ==> has_text(all, "p50 "@ + dec(h.rtt.p50->0 as nat) + " ms"@)
            &&& h.answered > 0 && h.rtt.max is Some ==> has_text(all, "max "@ + dec(h.rtt.max->0 as nat) + " ms"@)
            &&& h.answered > 0 && h.path_changed ==> has_text(all, "path changed"@)
            &&& h.answered == 0 ==> has_text(
                all,
                "  "@ + right(dec(h.ttl as nat), 2) + "  "@ + "*"@ + "  0/"@ + (dec(r.runs as nat) + " (lost)"@)
                    + "\n"@,
            )
        }),
        forall|j: int|
            r.hops@[i].answered > 0 && 0 <= j < r.hops@[i].addrs@.len() ==> has_text(
                route_repeat_report(false, r),
                (#[trigger] r.hops@[i].addrs@[j]).text(),
            ),
{
    broadcast use group_occurrence;

    let h = r.hops@[i];
    let width = stats_width(r.hops@);
    let row = stats_row(false, h, r.runs as nat, width);
    if h.answered == 0 {
        lemma_stats_rows(r.hops@, r.runs as nat, width, i, row);
    } else {
        lemma_answered(h, r.runs as nat, width);
        let p = " "@ + dec(h.answered as nat) + "/"@ + dec(r.runs as nat) + " answered"@;
        lemma_stats_rows(r.hops@, r.runs as nat, width, i, p);
        let notes = hop_notes(false, h);
        lemma_notes(h);
        assert forall|k: int| 0 <= k < notes.len() implies has_text(
            route_repeat_report(false, r),
            #[trigger] notes[k],
        ) by {
            lemma_in_joined(notes, "  "@, k);
            assert(has_text(notes_text(notes), notes[k]));
            assert(has_text(row, notes[k]));
            lemma_stats_rows(r.hops@, r.runs as nat, width, i, notes[k]);
        }
        assert forall|j: int| 0 <= j < h.addrs@.len() implies has_text(
            route_repeat_report(false, r),
            (#[trigger] h.addrs@[j]).text(),
        ) by {
            let p = h.addrs@[j].text();
            lemma_in_joined(address_texts(h.addrs@), ", "@, j);
            assert(address_texts(h.addrs@)[j] == p);
            assert(has_text(stats_cell(h), p));
            assert(has_text(left(stats_cell(h), width), p));
            assert(has_text(row, p));
            lemma_stats_rows(r.hops@, r.runs as nat, width, i, p);
        }
    }
}

// --- diagnoses ---------------------------------------------------------------------------

/// Each row is among the rows.
proof fn lemma_diagnosis_rows(s: Seq<DiagnosisModel>, i: int, p: Seq<char>)
    requires
        0 <= i < s.len(),
        has_text(diagnosis_text(false, s[i]), p),
    ensures
        has_text(diagnosis_rows(false, s), p),
    decreases s.len(),
{
    broadcast use group_occurrence;

    if i < s.len() - 1 {
        lemma_diagnosis_rows(s.drop_last(), i, p);
    }
}

/// Each item has its line.
proof fn lemma_items(s: Seq<Seq<char>>, j: int)
    requires
        0 <= j < s.len(),
    ensures
        has_text(items(s), "      - "@ + s[j] + "\n"@),
    decreases s.len(),
{
    broadcast use group_occurrence;

    if j < s.len() - 1 {
        lemma_items(s.drop_last(), j);
    }
}

/// The diagnosis report has of each diagnosis its severity, category, confidence
/// and summary, and every piece of evidence and possible cause.
pub proof fn lemma_diagnosis_report(s: Seq<DiagnosisModel>, i: int)
    requires
        0 <= i < s.len(),
    ensures
        has_text(
            diagnosis_report(false, s),
            "["@ + s[i].severity.text() + "] "@ + s[i].category.text() + " ("@ + s[i].confidence.text()
                + " confidence)\n"@,
        ),
        has_text(diagnosis_report(false, s), "    "@ + s[i].summary + "\n"@),
        forall|j: int|
            0 <= j < s[i].evidence.len() ==> has_text(
                diagnosis_report(false, s),
                "      - "@ + #[trigger] s[i].evidence[j] + "\n"@,
            ),
        forall|j: int|
            0 <= j < s[i].possible_causes.len() ==> has_text(
                diagnosis_report(false, s),
                "      - "@ + #[trigger] s[i].possible_causes[j] + "\n"@,
            ),
{
    broadcast use group_occurrence;

    reveal(diagnosis_text);
    let d = s[i];
    let r = diagnosis_text(false, d);
    let a = "["@ + d.severity.text() + "] "@ + d.category.text() + " ("@ + d.confidence.text()
        + " confidence)\n"@;
    assert(has_text(r, a));
    lemma_diagnosis_rows(s, i, a);
    let b = "    "@ + d.summary + "\n"@;
    assert(has_text(r, b));
    lemma_diagnosis_rows(s, i, b);
    assert forall|j: int| 0 <= j < d.evidence.len() implies has_text(
        diagnosis_report(false, s),
        "      - "@ + #[trigger] d.evidence[j] + "\n"@,
    ) by {
        let p = "      - "@ + d.evidence[j] + "\n"@;
        lemma_items(d.evidence, j);
        assert(has_text(r, p));
        lemma_diagnosis_rows(s, i, p);
    }
    assert forall|j: int| 0 <= j < d.possible_causes.len() implies has_text(
        diagnosis_report(false, s),
        "      - "@ + #[trigger] d.possible_causes[j] + "\n"@,
    ) by {
        let p = "      - "@ + d.possible_causes[j] + "\n"@;
        lemma_items(d.possible_causes, j);
        assert(has_text(r, p));
        lemma_diagnosis_rows(s, i, p);
    }
}

/// What counts as an anomaly is every diagnosis but a healthy one.
pub proof fn lemma_anomalies(s: Seq<DiagnosisModel>, severity: Severity)
    ensures
        anomalies(s, None) == s.filter(|d: DiagnosisModel| d.category != DiagnosticCategory::Healthy).len(),
        anomalies(s, Some(severity)) == s.filter(
            |d: DiagnosisModel| d.category != DiagnosticCategory::Healthy && d.severity == severity,
        ).len(),
    decreases s.len(),
{
    reveal(Seq::filter);
    if s.len() > 0 {
        lemma_anomalies(s.drop_last(), severity);
    }
}

// --- layout ------------------------------------------------------------------------------

/// A padded text keeps the text, at the left or at the right, is as wide as asked
/// where the text is not wider, and adds blanks only.
pub proof fn lemma_padding(s: Seq<char>, width: nat)
    ensures
        left(s, width).take(s.len() as int) == s,
        right(s, width).skip(right(s, width).len() - s.len()) == s,
        left(s, width).len() == right(s, width).len(),
        left(s, width).len() == if s.len() < width { width } else { s.len() },
        forall|i: int| s.len() <= i < left(s, width).len() ==> left(s, width)[i] == ' ',
        forall|i: int| 0 <= i < right(s, width).len() - s.len() ==> right(s, width)[i] == ' ',
{
    if s.len() < width {
        lemma_spaces((width - s.len()) as nat);
    }
    assert(left(s, width).take(s.len() as int) =~= s);
    assert(right(s, width).skip(right(s, width).len() - s.len()) =~= s);
}

/// Blanks are blank.
proof fn lemma_spaces(n: nat)
    ensures
        spaces(n).len() == n,
        forall|i: int| 0 <= i < n ==> spaces(n)[i] == ' ',
    decreases n,
{
    if n > 0 {
        lemma_spaces((n - 1) as nat);
    }
}

/// A status is green where it reports success, yellow where it redirects, red
/// where it reports an error, and plain elsewhere: without color it is the text.
pub proof fn lemma_status_color(status: u16, text: Seq<char>)
    ensures
        by_class(false, status, text) == text,
        status / 100 == 2 ==> by_class(true, status, text) == "\x1b["@ + "32"@ + "m"@ + text + "\x1b[0m"@,
        status / 100 == 3 ==> by_class(true, status, text) == "\x1b["@ + "33"@ + "m"@ + text + "\x1b[0m"@,
        status / 100 == 4 || status / 100 == 5 ==> by_class(true, status, text) == "\x1b["@ + "31"@ + "m"@ + text
            + "\x1b[0m"@,
        status < 200 || status >= 600 ==> by_class(true, status, text) == text,
{
}

/// A text without control characters is shown as it is.
pub proof fn lemma_harmless_text_is_kept(s: Seq<char>)
    requires
        forall|i: int| 0 <= i < s.len() ==> 0x20 <= (#[trigger] s[i]) as u32 && s[i] as u32 != 0x7f,
    ensures
        safe_text(s) == s,
    decreases s.len(),
{
    if s.len() > 0 {
        lemma_harmless_text_is_kept(s.drop_last());
        assert(0x20 <= s.last() as u32);
        assert(s.drop_last() + seq![s.last()] =~= s);
    }
}

// --- lookups -----------------------------------------------------------------------------

/// The row of a lookup has its record type and, where it succeeded, the text of
/// every record, their lifetime and the latency, else what went wrong.
pub proof fn lemma_lookup_row(host: Seq<char>, o: DnsObservation)
    ensures
        has_text(dns_row(false, host, o), "    "@ + left(o.record_type.text(), 4) + ": "@),
        o.hostname@ != host && o.hostname@.len() > 0 ==> has_text(dns_row(false, host, o), o.hostname@ + " :: "@),
        o.error is None && o.latency_ms is Some ==> forall|i: int|
            0 <= i < o.records@.len() ==> has_text(
                dns_row(false, host, o),
                record_text((#[trigger] o.records@[i]).deep_view()),
            ),
        o.error is None && o.latency_ms is Some && o.records@.len() > 0 && o.ttl is Some ==> has_text(
            dns_row(false, host, o),
            ", ttl "@ + dec(o.ttl->0 as nat) + "s"@,
        ),
        o.error is None && o.latency_ms is Some ==> has_text(
            dns_row(false, host, o),
            dec(o.latency_ms->0 as nat),
        ),
        o.error is Some ==> has_text(dns_row(false, host, o), o.error->0.message@),
{
    broadcast use group_occurrence;

    if o.error is None && o.latency_ms is Some && o.records@.len() > 0 {
        assert forall|i: int| 0 <= i < o.records@.len() implies has_text(
            dns_row(false, host, o),
            record_text((#[trigger] o.records@[i]).deep_view()),
        ) by {
            let p = record_text(o.records@[i].deep_view());
            lemma_in_joined(record_texts(o.records@), ", "@, i);
            assert(record_texts(o.records@)[i] == p);
            assert(has_text(answer_text(false, o), p));
        }
    }
}

// --- distributions, headers and certificates ---------------------------------------------

/// The report of repeated probes lists each failure mode with its count and each
/// status with its count.
pub proof fn lemma_probe_report_distributions(s: Seq<ProbeResult>, i: int)
    requires
        0 <= i < s.len(),
    ensures
        forall|j: int|
            0 <= j < s[i].failure_counts@.len() ==> has_text(
                probe_report(false, s),
                (#[trigger] s[i].failure_counts@[j]).kind.text() + ": "@ + dec(s[i].failure_counts@[j].count as nat),
            ),
        forall|j: int|
            0 <= j < s[i].status_counts@.len() ==> has_text(
                probe_report(false, s),
                dec((#[trigger] s[i].status_counts@[j]).status as nat) + "x"@ + dec(
                    s[i].status_counts@[j].count as nat,
                ),
            ),
{
    broadcast use group_occurrence;

    reveal(probe_row);
    let r = s[i];
    assert forall|j: int| 0 <= j < r.failure_counts@.len() implies has_text(
        probe_report(false, s),
        (#[trigger] r.failure_counts@[j]).kind.text() + ": "@ + dec(r.failure_counts@[j].count as nat),
    ) by {
        let p = r.failure_counts@[j].kind.text() + ": "@ + dec(r.failure_counts@[j].count as nat);
        let all = failure_tokens(false, r.failure_counts@);
        assert(all[j] == p);
        lemma_in_joined(all, ", "@, j);
        assert(has_text(distributions(false, r), p));
        assert(has_text(probe_row(false, r), p));
        lemma_probe_rows(s, i, p);
    }
    assert forall|j: int| 0 <= j < r.status_counts@.len() implies has_text(
        probe_report(false, s),
        dec((#[trigger] r.status_counts@[j]).status as nat) + "x"@ + dec(r.status_counts@[j].count as nat),
    ) by {
        let p = dec(r.status_counts@[j].status as nat) + "x"@ + dec(r.status_counts@[j].count as nat);
        let all = status_tokens(false, r.status_counts@);
        assert(all[j] == p);
        lemma_in_joined(all, ", "@, j);
        assert(has_text(distributions(false, r), p));
        assert(has_text(probe_row(false, r), p));
        lemma_probe_rows(s, i, p);
    }
}

/// Each header that is shown has its line.
proof fn lemma_header_lines(headers: Seq<(String, String)>, j: int)
    requires
        0 <= j < headers.len(),
        is_shown(headers[j].0@),
    ensures
        has_text(header_lines(headers), ("    "@ + headers[j].0@ + ": "@) + headers[j].1@ + "\n"@),
    decreases headers.len(),
{
    broadcast use group_occurrence;

    if j < headers.len() - 1 {
        lemma_header_lines(headers.drop_last(), j);
    }
}

/// The request report has a line for every shown header of a response, and what
/// TLS negotiated beneath it.
pub proof fn lemma_http_report_details(plain: bool, s: Seq<HttpObservation>, today: Option<i64>, i: int)
    requires
        0 <= i < s.len(),
        s[i].failure is None,
    ensures
        forall|j: int|
            0 <= j < s[i].headers@.len() && is_shown((#[trigger] s[i].headers@[j]).0@) ==> has_text(
                http_report(false, plain, s, today),
                ("    "@ + s[i].headers@[j].0@ + ": "@) + s[i].headers@[j].1@ + "\n"@,
            ),
        s[i].tls matches Some(tls) ==> (tls.version matches Some(v) ==> has_text(
            http_report(false, plain, s, today),
            "    TLS: "@ + v@ + "\n"@,
        )),
        s[i].tls matches Some(tls) ==> (tls.alpn matches Some(v) ==> has_text(
            http_report(false, plain, s, today),
            "    ALPN: "@ + v@ + "\n"@,
        )),
        s[i].tls matches Some(tls) ==> (tls.certificate matches Some(cert) ==> has_text(
            http_report(false, plain, s, today),
            cert.subject@ + " issued by "@ + cert.issuer@,
        )),
{
    broadcast use group_occurrence;

    reveal(http_row);
    let o = s[i];
    let r = http_row(false, o, today);
    assert forall|j: int| 0 <= j < o.headers@.len() && is_shown((#[trigger] o.headers@[j]).0@) implies has_text(
        http_report(false, plain, s, today),
        ("    "@ + o.headers@[j].0@ + ": "@) + o.headers@[j].1@ + "\n"@,
    ) by {
        let p = ("    "@ + o.headers@[j].0@ + ": "@) + o.headers@[j].1@ + "\n"@;
        lemma_header_lines(o.headers@, j);
        assert(has_text(r, p));
        lemma_http_rows(s, today, i, p);
    }
    if o.tls is Some {
        let tls = o.tls->0;
        if tls.version is Some {
            let p = "    TLS: "@ + tls.version->0@ + "\n"@;
            assert(has_text(r, p));
            lemma_http_rows(s, today, i, p);
        }
        if tls.alpn is Some {
            let p = "    ALPN: "@ + tls.alpn->0@ + "\n"@;
            assert(has_text(r, p));
            lemma_http_rows(s, today, i, p);
        }
        if tls.certificate is Some {
            let cert = tls.certificate->0;
            let p = cert.subject@ + " issued by "@ + cert.issuer@;
            assert(has_text(cert_text(false, cert, today), p));
            assert(has_text(r, p));
            lemma_http_rows(s, today, i, p);
        }
    }
}

/// The headers that name servers, proxies and caches are shown, in any case.
pub proof fn lemma_shown_headers(name: Seq<char>)
    ensures
        lower(name) == lower("server"@) || lower(name) == lower("via"@) || lower(name) == lower("set-cookie"@) || lower(
            name,
        ) == lower("content-type"@) || lower(name) == lower("cf-ray"@) || lower(name) == lower("x-cache"@) || lower(
            name,
        ) == lower("alt-svc"@) || lower(name) == lower("cache-control"@) ==> is_shown(name),
{
    let all = shown_headers();
    assert(all[0] == "server"@ && all[1] == "via"@ && all[4] == "x-cache"@ && all[6] == "cf-ray"@);
    assert(all[9] == "cache-control"@ && all[13] == "content-type"@ && all[14] == "alt-svc"@);
    assert(all[15] == "set-cookie"@);
}

/// A certificate as shown has its subject and issuer, every name it covers, and
/// its remaining days where they are thirty or fewer.
pub proof fn lemma_certificate_text(cert: CertificateSummary, today: Option<i64>)
    ensures
        has_text(cert_text(false, cert, today), cert.subject@ + " issued by "@ + cert.issuer@),
        forall|j: int|
            0 <= j < cert.sans@.len() ==> has_text(cert_text(false, cert, today), (#[trigger] cert.sans@[j])@),
        days_left(cert, today) matches Some(n) ==> {
            &&& n < 0 ==> has_text(cert_text(false, cert, today), " (expired)"@)
            &&& n == 0 ==> has_text(cert_text(false, cert, today), " (expires today)"@)
            &&& n == 1 ==> has_text(cert_text(false, cert, today), " (expires in "@ + dec(1) + " day"@ + ""@ + ")"@)
            &&& 1 < n <= 30 ==> has_text(
                cert_text(false, cert, today),
                " (expires in "@ + dec(n as nat) + " day"@ + "s"@ + ")"@,
            )
            &&& n > 30 ==> cert_text(false, cert, today) == cert_text(false, cert, None)
        },
{
    broadcast use group_occurrence;

    assert forall|j: int| 0 <= j < cert.sans@.len() implies has_text(
        cert_text(false, cert, today),
        (#[trigger] cert.sans@[j])@,
    ) by {
        lemma_in_joined(texts(cert.sans@), ", "@, j);
        assert(texts(cert.sans@)[j] == cert.sans@[j]@);
        assert(has_text(sans_text(cert.sans@), cert.sans@[j]@));
    }
}

/// An escaped control character is read back: a letter for the line controls,
/// else its two hexadecimal digits.
pub proof fn lemma_control_reads_back(c: char)
    ensures
        c as u32 >= 0x20 && c as u32 != 0x7f ==> safe_char(c) == seq![c],
        c == '\n' ==> safe_char(c) == seq!['\\', 'n'],
        c == '\t' ==> safe_char(c) == seq!['\\', 't'],
        c == '\r' ==> safe_char(c) == seq!['\\', 'r'],
        (c as u32 <= 0x1f || c as u32 == 0x7f) && c != '\n' && c != '\t' && c != '\r' ==> {
            let e = safe_char(c);
            &&& e.len() == 4
            &&& e[0] == '\\' && e[1] == 'x'
            &&& hex_digit_value(e[2]) * 16 + hex_digit_value(e[3]) == c as int
        },
{
    reveal_strlit("\\x1b");
    reveal_strlit("\\n");
    reveal_strlit("\\t");
    reveal_strlit("\\r");
    reveal_strlit("\\x");
    assert("\\n"@ =~= seq!['\\', 'n']);
    assert("\\t"@ =~= seq!['\\', 't']);
    assert("\\r"@ =~= seq!['\\', 'r']);
}

/// The column of destinations is as wide as the widest, and at least twenty-four.
pub proof fn lemma_destination_column(s: Seq<TcpObservation>)
    ensures
        destination_width(s) >= 24,
        forall|i: int| 0 <= i < s.len() ==> byte_len((#[trigger] s[i]).destination.text()) <= destination_width(s),
        destination_width(s) == 24 || exists|i: int|
            0 <= i < s.len() && byte_len((#[trigger] s[i]).destination.text()) == destination_width(s),
    decreases s.len(),
{
    if s.len() > 0 {
        let front = s.drop_last();
        lemma_destination_column(front);
        assert forall|i: int| 0 <= i < s.len() implies byte_len((#[trigger] s[i]).destination.text())
            <= destination_width(s) by {
            if i < front.len() {
                assert(front[i] == s[i]);
            }
        }
        if destination_width(s) != 24 {
            if destination_width(s) == destination_width(front) {
                let i = choose|i: int|
                    0 <= i < front.len() && byte_len((#[trigger] front[i]).destination.text()) == destination_width(
                        front,
                    );
                assert(s[i] == front[i]);
            } else {
                assert(byte_len(s[s.len() - 1].destination.text()) == destination_width(s));
            }
        }
    }
}

} // verus!
