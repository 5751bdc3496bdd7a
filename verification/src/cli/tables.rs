//! The CSV tables of the subcommands.

use super::csv::{
    csv_field, csv_flag, field, flag, holds_number, lemma_field_reads_back, lemma_flag_cell, lemma_number_cell, opt,
    opt_csv_field, opt_field, push_cells, read_field, rows, table_texts, write_table,
};
use crate::model::{
    CertificateSummary, DnsObservation, DnsRepeatResult, HttpObservation, ProbeError, ProbeResult, StatusCount,
    TcpObservation, TlsObservation,
};
use crate::model::dns::resolver_text;
use crate::net::{lemma_address_reads_back, lemma_destination_reads_back, parse_ip, parse_socket};
use crate::report::cert::{cert_covers_hostname, covers};
use crate::report::dns::{record_texts, render_records};
use crate::report::http::{is_shown, shows_header};
use crate::report::repeat::valid_lookups;
use crate::report::route::{address_texts, render_addresses};
use crate::route::{RouteHop, RouteHopStats, RouteRepeat};
use crate::text::{dec, dec_text, glue3, join, join_texts, opt_dec, push_dec, push_text, texts};
use vstd::prelude::*;

verus! {

/// The failure mode of an observation as a field.
pub open spec fn failure_field(e: Option<ProbeError>) -> Seq<char> {
    match e {
        Some(f) => field(f.kind.text()),
        None => Seq::empty(),
    }
}

/// The failure mode of an observation as a field.
fn failure_cell(e: &Option<ProbeError>) -> (out: String)
    ensures
        out@ == failure_field(*e),
{
    match e {
        Some(f) => csv_field(f.kind.to_text()),
        None => String::new(),
    }
}

// --- TCP ---------------------------------------------------------------------------------

/// A connection attempt as cells.
pub open spec fn tcp_cells(host: Seq<char>, o: TcpObservation) -> Seq<Seq<char>> {
    seq![
        field(host),
        field(o.destination.text()),
        flag(o.success),
        opt_dec(o.latency_ms),
        failure_field(o.failure),
    ]
}

/// A connection attempt as cells.
fn tcp_line(host: &str, o: &TcpObservation) -> (cells: Vec<String>)
    ensures
        texts(cells@) == tcp_cells(host@, *o),
{
    let mut cells: Vec<String> = Vec::new();
    push_text(&mut cells, csv_field(host));
    push_text(&mut cells, csv_field(o.destination.to_text().as_str()));
    push_text(&mut cells, csv_flag(o.success));
    push_text(&mut cells, opt(o.latency_ms));
    push_text(&mut cells, failure_cell(&o.failure));
    assert(texts(cells@) =~= tcp_cells(host@, *o));
    cells
}

/// Rows of one target.
pub open spec fn tcp_rows(host: Seq<char>, s: Seq<TcpObservation>) -> Seq<Seq<Seq<char>>> {
    s.map_values(|o: TcpObservation| tcp_cells(host, o))
}

/// Rows of a sweep.
pub open spec fn tcp_table(per_target: Seq<(String, Vec<TcpObservation>)>) -> Seq<Seq<Seq<char>>>
    decreases per_target.len(),
{
    if per_target.len() == 0 {
        Seq::empty()
    } else {
        tcp_table(per_target.drop_last()) + tcp_rows(per_target.last().0@, per_target.last().1@)
    }
}

/// Render a TCP sweep as CSV: a header then one row per destination.
pub fn render_tcp_csv(per_target: &[(String, Vec<TcpObservation>)]) -> (out: String)
    ensures
        out@ == "host,destination,success,latency_ms,failure\n"@ + rows(tcp_table(per_target@)),
{
    let mut table: Vec<Vec<String>> = Vec::new();
    assert(table_texts(table@) =~= Seq::empty());
    for i in 0..per_target.len()
        invariant
            table_texts(table@) == tcp_table(per_target@.take(i as int)),
    {
        let ghost before = table_texts(table@);
        assert(per_target@.take(i as int + 1).drop_last() =~= per_target@.take(i as int));
        let host = per_target[i].0.as_str();
        let results = &per_target[i].1;
        assert(before + tcp_rows(host@, results@.take(0)) =~= before);
        for j in 0..results.len()
            invariant
                table_texts(table@) == before + tcp_rows(host@, results@.take(j as int)),
        {
            let cells = tcp_line(host, &results[j]);
            push_cells(&mut table, cells);
            assert(tcp_rows(host@, results@.take(j as int + 1)) =~= tcp_rows(
                host@,
                results@.take(j as int),
            ).push(tcp_cells(host@, results@[j as int])));
            assert(table_texts(table@) =~= before + tcp_rows(host@, results@.take(j as int + 1)));
        }
        assert(results@.take(results@.len() as int) =~= results@);
    }
    assert(per_target@.take(per_target@.len() as int) =~= per_target@);
    write_table("host,destination,success,latency_ms,failure\n", table.as_slice())
}

// --- TLS ---------------------------------------------------------------------------------

/// The subject, issuer, end and names of a certificate as cells.
pub open spec fn cert_cells(cert: Option<CertificateSummary>) -> Seq<Seq<char>> {
    match cert {
        Some(c) => seq![
            field(c.subject@),
            field(c.issuer@),
            opt_field(c.not_after_utc),
            field(join(texts(c.sans@), ";"@)),
        ],
        None => seq![Seq::empty(), Seq::empty(), Seq::empty(), Seq::empty()],
    }
}

/// Append the cells of a certificate.
fn push_cert_cells(cells: &mut Vec<String>, cert: &Option<CertificateSummary>)
    ensures
        texts(final(cells)@) == texts(old(cells)@) + cert_cells(*cert),
{
    let ghost before = texts(cells@);
    match cert {
        Some(c) => {
            push_text(cells, csv_field(c.subject.as_str()));
            push_text(cells, csv_field(c.issuer.as_str()));
            push_text(cells, opt_csv_field(&c.not_after_utc));
            push_text(cells, csv_field(join_texts(c.sans.as_slice(), ";").as_str()));
        },
        None => {
            push_text(cells, String::new());
            push_text(cells, String::new());
            push_text(cells, String::new());
            push_text(cells, String::new());
        },
    }
    assert(texts(cells@) =~= before + cert_cells(*cert));
}

/// Whether a certificate covers the presented name as a field: `yes` or `no`,
/// empty when no certificate was observed.
pub open spec fn covers_field(sni: Seq<char>, cert: Option<CertificateSummary>) -> Seq<char> {
    match cert {
        Some(c) => if covers(sni, c.sans@) {
            "yes"@
        } else {
            "no"@
        },
        None => Seq::empty(),
    }
}

/// A handshake as cells.
pub open spec fn tls_cells(host: Seq<char>, o: TlsObservation) -> Seq<Seq<char>> {
    seq![
        field(host),
        field(o.destination.text()),
        field(o.sni@),
        flag(o.success),
        opt_field(o.version),
        opt_field(o.cipher),
        opt_field(o.alpn),
    ] + cert_cells(o.certificate) + seq![
        covers_field(o.sni@, o.certificate),
        opt_dec(o.latency_ms),
        failure_field(o.failure),
    ]
}

/// A handshake as cells.
fn tls_line(host: &str, o: &TlsObservation) -> (cells: Vec<String>)
    ensures
        texts(cells@) == tls_cells(host@, *o),
{
    let mut cells: Vec<String> = Vec::new();
    push_text(&mut cells, csv_field(host));
    push_text(&mut cells, csv_field(o.destination.to_text().as_str()));
    push_text(&mut cells, csv_field(o.sni.as_str()));
    push_text(&mut cells, csv_flag(o.success));
    push_text(&mut cells, opt_csv_field(&o.version));
    push_text(&mut cells, opt_csv_field(&o.cipher));
    push_text(&mut cells, opt_csv_field(&o.alpn));
    push_cert_cells(&mut cells, &o.certificate);
    let answer = match &o.certificate {
        Some(c) => if cert_covers_hostname(o.sni.as_str(), c.sans.as_slice()) {
            "yes".to_owned()
        } else {
            "no".to_owned()
        },
        None => String::new(),
    };
    push_text(&mut cells, answer);
    push_text(&mut cells, opt(o.latency_ms));
    push_text(&mut cells, failure_cell(&o.failure));
    assert(texts(cells@) =~= tls_cells(host@, *o));
    cells
}

/// Rows of one target.
pub open spec fn tls_rows(host: Seq<char>, s: Seq<TlsObservation>) -> Seq<Seq<Seq<char>>> {
    s.map_values(|o: TlsObservation| tls_cells(host, o))
}

/// Rows of a sweep.
pub open spec fn tls_table(per_target: Seq<(String, Vec<TlsObservation>)>) -> Seq<Seq<Seq<char>>>
    decreases per_target.len(),
{
    if per_target.len() == 0 {
        Seq::empty()
    } else {
        tls_table(per_target.drop_last()) + tls_rows(per_target.last().0@, per_target.last().1@)
    }
}

/// Render a TLS sweep as CSV: a header then one row per destination, with
/// handshake details when present.
pub fn render_tls_csv(per_target: &[(String, Vec<TlsObservation>)]) -> (out: String)
    ensures
        out@ == "host,destination,sni,success,version,cipher,alpn,subject,issuer,not_after_utc,sans,covers,latency_ms,failure\n"@ + rows(tls_table(per_target@)),
{
    let mut table: Vec<Vec<String>> = Vec::new();
    assert(table_texts(table@) =~= Seq::empty());
    for i in 0..per_target.len()
        invariant
            table_texts(table@) == tls_table(per_target@.take(i as int)),
    {
        let ghost before = table_texts(table@);
        assert(per_target@.take(i as int + 1).drop_last() =~= per_target@.take(i as int));
        let host = per_target[i].0.as_str();
        let results = &per_target[i].1;
        assert(before + tls_rows(host@, results@.take(0)) =~= before);
        for j in 0..results.len()
            invariant
                table_texts(table@) == before + tls_rows(host@, results@.take(j as int)),
        {
            let cells = tls_line(host, &results[j]);
            push_cells(&mut table, cells);
            assert(tls_rows(host@, results@.take(j as int + 1)) =~= tls_rows(
                host@,
                results@.take(j as int),
            ).push(tls_cells(host@, results@[j as int])));
            assert(table_texts(table@) =~= before + tls_rows(host@, results@.take(j as int + 1)));
        }
        assert(results@.take(results@.len() as int) =~= results@);
    }
    assert(per_target@.take(per_target@.len() as int) =~= per_target@);
    write_table("host,destination,sni,success,version,cipher,alpn,subject,issuer,not_after_utc,sans,covers,latency_ms,failure\n", table.as_slice())
}

// --- HTTP --------------------------------------------------------------------------------

/// The shown headers of a response, `Name: value` each.
pub open spec fn curated(headers: Seq<(String, String)>) -> Seq<Seq<char>>
    decreases headers.len(),
{
    if headers.len() == 0 {
        Seq::empty()
    } else {
        let front = curated(headers.drop_last());
        let (name, value) = headers.last();
        if is_shown(name@) {
            front.push(name@ + ": "@ + value@)
        } else {
            front
        }
    }
}

/// Join the diagnostic-relevant response headers as `Name: value` pairs
/// separated by "; ".
pub fn curated_headers_csv(headers: &[(String, String)]) -> (out: String)
    ensures
        out@ == join(curated(headers@), "; "@),
{
    let mut parts: Vec<String> = Vec::new();
    assert(texts(parts@) =~= Seq::empty());
    for i in 0..headers.len()
        invariant
            texts(parts@) == curated(headers@.take(i as int)),
    {
        assert(headers@.take(i as int + 1).drop_last() =~= headers@.take(i as int));
        let name = headers[i].0.as_str();
        let value = headers[i].1.as_str();
        if shows_header(name) {
            push_text(&mut parts, glue3(name, ": ", value));
        }
    }
    assert(headers@.take(headers@.len() as int) =~= headers@);
    join_texts(parts.as_slice(), "; ")
}

/// The handshake of a request as cells, its certificate last.
pub open spec fn handshake_cells(tls: Option<TlsObservation>) -> Seq<Seq<char>> {
    match tls {
        Some(t) => seq![field(t.sni@), opt_field(t.version), opt_field(t.cipher), opt_field(t.alpn)] + cert_cells(
            t.certificate,
        ) + seq![
            if t.certificate matches Some(c) && covers(t.sni@, c.sans@) {
                "yes"@
            } else {
                Seq::empty()
            },
        ],
        None => seq![Seq::empty(), Seq::empty(), Seq::empty(), Seq::empty()] + cert_cells(None) + seq![Seq::empty()],
    }
}

/// Append the cells of a handshake.
fn push_handshake_cells(cells: &mut Vec<String>, tls: &Option<TlsObservation>)
    ensures
        texts(final(cells)@) == texts(old(cells)@) + handshake_cells(*tls),
{
    let ghost before = texts(cells@);
    match tls {
        Some(t) => {
            push_text(cells, csv_field(t.sni.as_str()));
            push_text(cells, opt_csv_field(&t.version));
            push_text(cells, opt_csv_field(&t.cipher));
            push_text(cells, opt_csv_field(&t.alpn));
            push_cert_cells(cells, &t.certificate);
            let covered = match &t.certificate {
                Some(c) => cert_covers_hostname(t.sni.as_str(), c.sans.as_slice()),
                None => false,
            };
            push_text(
                cells,
                if covered {
                    "yes".to_owned()
                } else {
                    String::new()
                },
            );
        },
        None => {
            push_text(cells, String::new());
            push_text(cells, String::new());
            push_text(cells, String::new());
            push_text(cells, String::new());
            push_cert_cells(cells, &None);
            push_text(cells, String::new());
        },
    }
    assert(texts(cells@) =~= before + handshake_cells(*tls));
}

/// A status as a number.
pub open spec fn status_number(status: Option<u16>) -> Option<u64> {
    match status {
        Some(s) => Some(s as u64),
        None => None,
    }
}

/// A request as cells.
pub open spec fn http_cells(host: Seq<char>, o: HttpObservation) -> Seq<Seq<char>> {
    seq![
        field(host),
        field(o.destination.text()),
        opt_field(o.protocol),
        opt_dec(status_number(o.status)),
        opt_field(o.location),
        opt_dec(o.body_bytes),
        opt_dec(o.ttfb_ms),
        opt_dec(o.latency_ms),
    ] + handshake_cells(o.tls) + seq![
        field(join(curated(o.headers@), "; "@)),
        opt_field(o.body_snippet),
        failure_field(o.failure),
    ]
}

/// A request as cells.
fn http_line(host: &str, o: &HttpObservation) -> (cells: Vec<String>)
    ensures
        texts(cells@) == http_cells(host@, *o),
{
    let mut cells: Vec<String> = Vec::new();
    push_text(&mut cells, csv_field(host));
    push_text(&mut cells, csv_field(o.destination.to_text().as_str()));
    push_text(&mut cells, opt_csv_field(&o.protocol));
    let status = match o.status {
        Some(s) => Some(s as u64),
        None => None,
    };
    push_text(&mut cells, opt(status));
    push_text(&mut cells, opt_csv_field(&o.location));
    push_text(&mut cells, opt(o.body_bytes));
    push_text(&mut cells, opt(o.ttfb_ms));
    push_text(&mut cells, opt(o.latency_ms));
    push_handshake_cells(&mut cells, &o.tls);
    push_text(&mut cells, csv_field(curated_headers_csv(o.headers.as_slice()).as_str()));
    push_text(&mut cells, opt_csv_field(&o.body_snippet));
    push_text(&mut cells, failure_cell(&o.failure));
    assert(texts(cells@) =~= http_cells(host@, *o));
    cells
}

/// Rows of one target.
pub open spec fn http_rows(host: Seq<char>, s: Seq<HttpObservation>) -> Seq<Seq<Seq<char>>> {
    s.map_values(|o: HttpObservation| http_cells(host, o))
}

/// Rows of a sweep.
pub open spec fn http_table(per_target: Seq<(String, Vec<HttpObservation>)>) -> Seq<Seq<Seq<char>>>
    decreases per_target.len(),
{
    if per_target.len() == 0 {
        Seq::empty()
    } else {
        http_table(per_target.drop_last()) + http_rows(per_target.last().0@, per_target.last().1@)
    }
}

/// Render an HTTP family sweep as CSV: a header then one row per destination,
/// with the response and the embedded handshake when present.
pub fn render_http_csv(per_target: &[(String, Vec<HttpObservation>)]) -> (out: String)
    ensures
        out@ == "host,destination,protocol,status,location,body_bytes,ttfb_ms,latency_ms,sni,version,cipher,alpn,subject,issuer,not_after_utc,sans,covers,headers,body_snippet,failure\n"@ + rows(http_table(per_target@)),
{
    let mut table: Vec<Vec<String>> = Vec::new();
    assert(table_texts(table@) =~= Seq::empty());
    for i in 0..per_target.len()
        invariant
            table_texts(table@) == http_table(per_target@.take(i as int)),
    {
        let ghost before = table_texts(table@);
        assert(per_target@.take(i as int + 1).drop_last() =~= per_target@.take(i as int));
        let host = per_target[i].0.as_str();
        let results = &per_target[i].1;
        assert(before + http_rows(host@, results@.take(0)) =~= before);
        for j in 0..results.len()
            invariant
                table_texts(table@) == before + http_rows(host@, results@.take(j as int)),
        {
            let cells = http_line(host, &results[j]);
            push_cells(&mut table, cells);
            assert(http_rows(host@, results@.take(j as int + 1)) =~= http_rows(
                host@,
                results@.take(j as int),
            ).push(http_cells(host@, results@[j as int])));
            assert(table_texts(table@) =~= before + http_rows(host@, results@.take(j as int + 1)));
        }
        assert(results@.take(results@.len() as int) =~= results@);
    }
    assert(per_target@.take(per_target@.len() as int) =~= per_target@);
    write_table("host,destination,protocol,status,location,body_bytes,ttfb_ms,latency_ms,sni,version,cipher,alpn,subject,issuer,not_after_utc,sans,covers,headers,body_snippet,failure\n", table.as_slice())
}

// --- repeated probes ---------------------------------------------------------------------

/// A status count: `{status}x{count}`.
pub open spec fn count_token(s: StatusCount) -> Seq<char> {
    dec(s.status as nat) + "x"@ + dec(s.count as nat)
}

/// Status counts.
pub open spec fn count_tokens(counts: Seq<StatusCount>) -> Seq<Seq<char>> {
    counts.map_values(|s: StatusCount| count_token(s))
}

/// A status count as text.
pub fn render_count_token(s: &StatusCount) -> (out: String)
    ensures
        out@ == count_token(*s),
{
    let mut out = dec_text(s.status as u64);
    out.append("x");
    push_dec(&mut out, s.count as u64);
    out
}

/// Status counts in one line.
fn render_count_tokens(counts: &[StatusCount]) -> (out: String)
    ensures
        out@ == join(count_tokens(counts@), ";"@),
{
    let mut parts: Vec<String> = Vec::new();
    assert(texts(parts@) =~= count_tokens(counts@.take(0)));
    for i in 0..counts.len()
        invariant
            texts(parts@) == count_tokens(counts@.take(i as int)),
    {
        push_text(&mut parts, render_count_token(&counts[i]));
        assert(count_tokens(counts@.take(i as int + 1)) =~= count_tokens(counts@.take(i as int)).push(
            count_token(counts@[i as int]),
        ));
    }
    assert(counts@.take(counts@.len() as int) =~= counts@);
    join_texts(parts.as_slice(), ";")
}

/// A repeated probe as cells.
pub open spec fn probe_cells(host: Seq<char>, r: ProbeResult) -> Seq<Seq<char>> {
    seq![
        field(host),
        field(r.destination.text()),
        dec(r.attempts as nat),
        r.success_rate.decimal(),
        opt_dec(r.latency.p50),
        opt_dec(r.latency.p95),
        opt_dec(r.latency.max),
        opt_dec(r.latency.jitter),
        opt_dec(r.ttfb.p50),
        opt_dec(r.ttfb.p95),
        opt_dec(r.ttfb.max),
        dec(r.failures as nat),
        field(join(count_tokens(r.status_counts@), ";"@)),
    ]
}

/// A repeated probe as cells.
fn probe_line(host: &str, r: &ProbeResult) -> (cells: Vec<String>)
    requires
        r.success_rate.wf(),
    ensures
        texts(cells@) == probe_cells(host@, *r),
{
    let mut cells: Vec<String> = Vec::new();
    push_text(&mut cells, csv_field(host));
    push_text(&mut cells, csv_field(r.destination.to_text().as_str()));
    push_text(&mut cells, dec_text(r.attempts as u64));
    push_text(&mut cells, r.success_rate.decimal_text());
    push_text(&mut cells, opt(r.latency.p50));
    push_text(&mut cells, opt(r.latency.p95));
    push_text(&mut cells, opt(r.latency.max));
    push_text(&mut cells, opt(r.latency.jitter));
    push_text(&mut cells, opt(r.ttfb.p50));
    push_text(&mut cells, opt(r.ttfb.p95));
    push_text(&mut cells, opt(r.ttfb.max));
    push_text(&mut cells, dec_text(r.failures as u64));
    push_text(&mut cells, csv_field(render_count_tokens(r.status_counts.as_slice()).as_str()));
    assert(texts(cells@) =~= probe_cells(host@, *r));
    cells
}

/// Whether the rates of a sweep have a value.
pub open spec fn valid_sweep(per_target: Seq<(String, Vec<ProbeResult>)>) -> bool {
    forall|i: int, j: int|
        0 <= i < per_target.len() && 0 <= j < per_target[i].1@.len() ==> (
        #[trigger] per_target[i].1@[j]).success_rate.wf()
}

/// Rows of one target.
pub open spec fn probe_rows(host: Seq<char>, s: Seq<ProbeResult>) -> Seq<Seq<Seq<char>>> {
    s.map_values(|o: ProbeResult| probe_cells(host, o))
}

/// Rows of a sweep.
pub open spec fn probe_table(per_target: Seq<(String, Vec<ProbeResult>)>) -> Seq<Seq<Seq<char>>>
    decreases per_target.len(),
{
    if per_target.len() == 0 {
        Seq::empty()
    } else {
        probe_table(per_target.drop_last()) + probe_rows(per_target.last().0@, per_target.last().1@)
    }
}

/// Render every repeated-probe result as CSV: a header then one row per
/// destination across every target.
pub fn render_probe_csv(per_target: &[(String, Vec<ProbeResult>)]) -> (out: String)
    requires
        valid_sweep(per_target@),
    ensures
        out@ == "host,destination,attempts,success_rate,latency_p50_ms,latency_p95_ms,latency_max_ms,jitter_ms,ttfb_p50_ms,ttfb_p95_ms,ttfb_max_ms,failures,statuses\n"@ + rows(probe_table(per_target@)),
{
    let mut table: Vec<Vec<String>> = Vec::new();
    assert(table_texts(table@) =~= Seq::empty());
    for i in 0..per_target.len()
        invariant
            valid_sweep(per_target@),
            table_texts(table@) == probe_table(per_target@.take(i as int)),
    {
        let ghost before = table_texts(table@);
        assert(per_target@.take(i as int + 1).drop_last() =~= per_target@.take(i as int));
        let host = per_target[i].0.as_str();
        let results = &per_target[i].1;
        assert(before + probe_rows(host@, results@.take(0)) =~= before);
        for j in 0..results.len()
            invariant
                valid_sweep(per_target@),
                i < per_target@.len(),
                results@ == per_target@[i as int].1@,
                table_texts(table@) == before + probe_rows(host@, results@.take(j as int)),
        {
            let cells = probe_line(host, &results[j]);
            push_cells(&mut table, cells);
            assert(probe_rows(host@, results@.take(j as int + 1)) =~= probe_rows(
                host@,
                results@.take(j as int),
            ).push(probe_cells(host@, results@[j as int])));
            assert(table_texts(table@) =~= before + probe_rows(host@, results@.take(j as int + 1)));
        }
        assert(results@.take(results@.len() as int) =~= results@);
    }
    assert(per_target@.take(per_target@.len() as int) =~= per_target@);
    write_table("host,destination,attempts,success_rate,latency_p50_ms,latency_p95_ms,latency_max_ms,jitter_ms,ttfb_p50_ms,ttfb_p95_ms,ttfb_max_ms,failures,statuses\n", table.as_slice())
}

// --- DNS ---------------------------------------------------------------------------------

/// The DNS result of one target: whether it used the repeat view, and the
/// observations (without) or aggregated results (with) it got.
pub struct TargetDns {
    /// The target's host.
    pub host: String,
    /// Whether the lookups were repeated and aggregated.
    pub repeat: bool,
    /// Single-shot observations.
    pub observations: Vec<DnsObservation>,
    /// Aggregated results.
    pub results: Vec<DnsRepeatResult>,
}

/// A time-to-live as a number.
pub open spec fn ttl_number(ttl: Option<u32>) -> Option<u64> {
    match ttl {
        Some(t) => Some(t as u64),
        None => None,
    }
}

/// A time-to-live as a number.
fn widen(ttl: Option<u32>) -> (r: Option<u64>)
    ensures
        r == ttl_number(ttl),
{
    match ttl {
        Some(t) => Some(t as u64),
        None => None,
    }
}

/// An aggregated result as cells. The aggregation keeps no records.
pub open spec fn repeat_cells(host: Seq<char>, r: DnsRepeatResult) -> Seq<Seq<char>> {
    seq![
        field(host),
        field(resolver_text(r.resolver.deep_view())),
        field(r.record_type.text()),
        dec(r.attempts as nat),
        r.success_rate.decimal(),
        opt_dec(r.latency.p50),
        opt_dec(r.latency.p95),
        opt_dec(r.latency.max),
        dec(r.failures as nat),
        opt_dec(ttl_number(r.ttl)),
        Seq::empty(),
    ]
}

/// A single-shot observation as cells.
pub open spec fn lookup_cells(host: Seq<char>, o: DnsObservation) -> Seq<Seq<char>> {
    seq![
        field(host),
        field(resolver_text(o.resolver.deep_view())),
        field(o.record_type.text()),
        "1"@,
        if o.error is None {
            "1.0000"@
        } else {
            "0.0000"@
        },
        opt_dec(o.latency_ms),
        opt_dec(o.latency_ms),
        opt_dec(o.latency_ms),
        flag(o.error is Some),
        opt_dec(ttl_number(o.ttl)),
        field(join(record_texts(o.records@), ", "@)),
    ]
}

/// Rows of one target.
pub open spec fn dns_rows(o: TargetDns) -> Seq<Seq<Seq<char>>> {
    if o.repeat {
        o.results@.map_values(|r: DnsRepeatResult| repeat_cells(o.host@, r))
    } else {
        o.observations@.map_values(|x: DnsObservation| lookup_cells(o.host@, x))
    }
}

/// Rows of a sweep.
pub open spec fn dns_table(s: Seq<TargetDns>) -> Seq<Seq<Seq<char>>>
    decreases s.len(),
{
    if s.len() == 0 {
        Seq::empty()
    } else {
        dns_table(s.drop_last()) + dns_rows(s.last())
    }
}

/// An aggregated result as cells.
fn repeat_line(host: &str, r: &DnsRepeatResult) -> (cells: Vec<String>)
    requires
        r.success_rate.wf(),
    ensures
        texts(cells@) == repeat_cells(host@, *r),
{
    let mut cells: Vec<String> = Vec::new();
    push_text(&mut cells, csv_field(host));
    push_text(&mut cells, csv_field(r.resolver.label().as_str()));
    push_text(&mut cells, csv_field(r.record_type.to_text()));
    push_text(&mut cells, dec_text(r.attempts as u64));
    push_text(&mut cells, r.success_rate.decimal_text());
    push_text(&mut cells, opt(r.latency.p50));
    push_text(&mut cells, opt(r.latency.p95));
    push_text(&mut cells, opt(r.latency.max));
    push_text(&mut cells, dec_text(r.failures as u64));
    push_text(&mut cells, opt(widen(r.ttl)));
    push_text(&mut cells, String::new());
    assert(texts(cells@) =~= repeat_cells(host@, *r));
    cells
}

/// A single-shot observation as cells.
fn lookup_line(host: &str, o: &DnsObservation) -> (cells: Vec<String>)
    ensures
        texts(cells@) == lookup_cells(host@, *o),
{
    let mut cells: Vec<String> = Vec::new();
    push_text(&mut cells, csv_field(host));
    push_text(&mut cells, csv_field(o.resolver.label().as_str()));
    push_text(&mut cells, csv_field(o.record_type.to_text()));
    push_text(&mut cells, "1".to_owned());
    push_text(
        &mut cells,
        if o.error.is_none() {
            "1.0000".to_owned()
        } else {
            "0.0000".to_owned()
        },
    );
    push_text(&mut cells, opt(o.latency_ms));
    push_text(&mut cells, opt(o.latency_ms));
    push_text(&mut cells, opt(o.latency_ms));
    push_text(&mut cells, csv_flag(o.error.is_some()));
    push_text(&mut cells, opt(widen(o.ttl)));
    push_text(&mut cells, csv_field(render_records(o.records.as_slice(), ", ").as_str()));
    assert(texts(cells@) =~= lookup_cells(host@, *o));
    cells
}

/// Whether the rates of a target's results have a value.
pub open spec fn valid_target(o: TargetDns) -> bool {
    valid_lookups(o.results@)
}

/// Append the rows of one target.
fn push_dns_rows(table: &mut Vec<Vec<String>>, o: &TargetDns)
    requires
        valid_target(*o),
    ensures
        table_texts(final(table)@) == table_texts(old(table)@) + dns_rows(*o),
{
    let ghost before = table_texts(table@);
    let ghost cells_of = |r: DnsRepeatResult| repeat_cells(o.host@, r);
    let ghost lookup_of = |x: DnsObservation| lookup_cells(o.host@, x);
    if o.repeat {
        assert(before + o.results@.take(0).map_values(cells_of) =~= before);
        for j in 0..o.results.len()
            invariant
                valid_target(*o),
                cells_of == (|r: DnsRepeatResult| repeat_cells(o.host@, r)),
                table_texts(table@) == before + o.results@.take(j as int).map_values(cells_of),
        {
            let cells = repeat_line(o.host.as_str(), &o.results[j]);
            push_cells(table, cells);
            assert(o.results@.take(j as int + 1).map_values(cells_of) =~= o.results@.take(j as int).map_values(
                cells_of,
            ).push(repeat_cells(o.host@, o.results@[j as int])));
            assert(table_texts(table@) =~= before + o.results@.take(j as int + 1).map_values(cells_of));
        }
        assert(o.results@.take(o.results@.len() as int) =~= o.results@);
    } else {
        assert(before + o.observations@.take(0).map_values(lookup_of) =~= before);
        for j in 0..o.observations.len()
            invariant
                lookup_of == (|x: DnsObservation| lookup_cells(o.host@, x)),
                table_texts(table@) == before + o.observations@.take(j as int).map_values(lookup_of),
        {
            let cells = lookup_line(o.host.as_str(), &o.observations[j]);
            push_cells(table, cells);
            assert(o.observations@.take(j as int + 1).map_values(lookup_of) =~= o.observations@.take(
                j as int,
            ).map_values(lookup_of).push(lookup_cells(o.host@, o.observations@[j as int])));
            assert(table_texts(table@) =~= before + o.observations@.take(j as int + 1).map_values(lookup_of));
        }
        assert(o.observations@.take(o.observations@.len() as int) =~= o.observations@);
    }
    assert(table_texts(table@) =~= before + dns_rows(*o));
}

/// Render every DNS row across every target as CSV: a header then one row per
/// resolver and record type. Single-shot rows carry the resolved records.
pub fn render_dns_csv(outputs: &[TargetDns]) -> (out: String)
    requires
        forall|i: int| 0 <= i < outputs@.len() ==> valid_target(#[trigger] outputs@[i]),
    ensures
        out@
            == "host,resolver,record_type,attempts,success_rate,latency_p50_ms,latency_p95_ms,latency_max_ms,failures,ttl,records\n"@
            + rows(dns_table(outputs@)),
{
    let mut table: Vec<Vec<String>> = Vec::new();
    assert(table_texts(table@) =~= Seq::empty());
    for i in 0..outputs.len()
        invariant
            forall|k: int| 0 <= k < outputs@.len() ==> valid_target(#[trigger] outputs@[k]),
            table_texts(table@) == dns_table(outputs@.take(i as int)),
    {
        assert(outputs@.take(i as int + 1).drop_last() =~= outputs@.take(i as int));
        push_dns_rows(&mut table, &outputs[i]);
    }
    assert(outputs@.take(outputs@.len() as int) =~= outputs@);
    write_table(
        "host,resolver,record_type,attempts,success_rate,latency_p50_ms,latency_p95_ms,latency_max_ms,failures,ttl,records\n",
        table.as_slice(),
    )
}

// --- routes ------------------------------------------------------------------------------

/// A hop as cells.
pub open spec fn hop_cells(h: RouteHop) -> Seq<Seq<char>> {
    seq![
        dec(h.ttl as nat),
        opt_field(h.hostname),
        match h.addr {
            Some(a) => field(a.text()),
            None => Seq::empty(),
        },
        opt_dec(h.rtt_ms),
        flag(h.lost),
    ]
}

/// Rows of a trace.
pub open spec fn hop_table(hops: Seq<RouteHop>) -> Seq<Seq<Seq<char>>> {
    hops.map_values(|h: RouteHop| hop_cells(h))
}

/// A hop as cells.
fn hop_line(h: &RouteHop) -> (cells: Vec<String>)
    ensures
        texts(cells@) == hop_cells(*h),
{
    let mut cells: Vec<String> = Vec::new();
    push_text(&mut cells, dec_text(h.ttl as u64));
    push_text(&mut cells, opt_csv_field(&h.hostname));
    push_text(
        &mut cells,
        match &h.addr {
            Some(a) => csv_field(a.to_text().as_str()),
            None => String::new(),
        },
    );
    push_text(&mut cells, opt(h.rtt_ms));
    push_text(&mut cells, csv_flag(h.lost));
    assert(texts(cells@) =~= hop_cells(*h));
    cells
}

/// Render a traceroute path as CSV: a header then one row per hop, with empty
/// fields for lost hops or missing hostnames.
pub fn render_route_csv(hops: &[RouteHop]) -> (out: String)
    ensures
        out@ == "ttl,hostname,addr,rtt_ms,lost\n"@ + rows(hop_table(hops@)),
{
    let mut table: Vec<Vec<String>> = Vec::new();
    assert(table_texts(table@) =~= hop_table(hops@.take(0)));
    for i in 0..hops.len()
        invariant
            table_texts(table@) == hop_table(hops@.take(i as int)),
    {
        push_cells(&mut table, hop_line(&hops[i]));
        assert(hop_table(hops@.take(i as int + 1)) =~= hop_table(hops@.take(i as int)).push(
            hop_cells(hops@[i as int]),
        ));
    }
    assert(hops@.take(hops@.len() as int) =~= hops@);
    write_table("ttl,hostname,addr,rtt_ms,lost\n", table.as_slice())
}

/// A repeated hop as cells.
pub open spec fn stats_cells(h: RouteHopStats, runs: nat) -> Seq<Seq<char>> {
    seq![
        dec(h.ttl as nat),
        opt_field(h.hostname),
        field(join(address_texts(h.addrs@), ";"@)),
        opt_dec(h.rtt.min),
        opt_dec(h.rtt.p50),
        opt_dec(h.rtt.max),
        dec(h.answered as nat),
        dec(runs),
        flag(h.path_changed),
    ]
}

/// Rows of repeated traces.
pub open spec fn stats_table(hops: Seq<RouteHopStats>, runs: nat) -> Seq<Seq<Seq<char>>> {
    hops.map_values(|h: RouteHopStats| stats_cells(h, runs))
}

/// The distinct router addresses of a repeat hop, `;`-joined.
pub fn hop_addrs(h: &RouteHopStats) -> (out: String)
    ensures
        out@ == join(address_texts(h.addrs@), ";"@),
{
    render_addresses(h.addrs.as_slice(), ";")
}

/// A repeated hop as cells.
fn stats_line(h: &RouteHopStats, runs: usize) -> (cells: Vec<String>)
    ensures
        texts(cells@) == stats_cells(*h, runs as nat),
{
    let mut cells: Vec<String> = Vec::new();
    push_text(&mut cells, dec_text(h.ttl as u64));
    push_text(&mut cells, opt_csv_field(&h.hostname));
    push_text(&mut cells, csv_field(hop_addrs(h).as_str()));
    push_text(&mut cells, opt(h.rtt.min));
    push_text(&mut cells, opt(h.rtt.p50));
    push_text(&mut cells, opt(h.rtt.max));
    push_text(&mut cells, dec_text(h.answered as u64));
    push_text(&mut cells, dec_text(runs as u64));
    push_text(&mut cells, csv_flag(h.path_changed));
    assert(texts(cells@) =~= stats_cells(*h, runs as nat));
    cells
}

/// Render a repeated-traceroute aggregation as CSV: a header then one row per
/// hop.
pub fn render_route_repeat_csv(repeat: &RouteRepeat) -> (out: String)
    ensures
        out@ == "ttl,hostname,addr,rtt_min_ms,rtt_med_ms,rtt_max_ms,answered,runs,path_changed\n"@ + rows(
            stats_table(repeat.hops@, repeat.runs as nat),
        ),
{
    let hops = repeat.hops.as_slice();
    let ghost runs = repeat.runs as nat;
    let mut table: Vec<Vec<String>> = Vec::new();
    assert(table_texts(table@) =~= stats_table(hops@.take(0), runs));
    for i in 0..hops.len()
        invariant
            runs == repeat.runs as nat,
            table_texts(table@) == stats_table(hops@.take(i as int), runs),
    {
        push_cells(&mut table, stats_line(&hops[i], repeat.runs));
        assert(stats_table(hops@.take(i as int + 1), runs) =~= stats_table(hops@.take(i as int), runs).push(
            stats_cells(hops@[i as int], runs),
        ));
    }
    assert(hops@.take(hops@.len() as int) =~= hops@);
    write_table(
        "ttl,hostname,addr,rtt_min_ms,rtt_med_ms,rtt_max_ms,answered,runs,path_changed\n",
        table.as_slice(),
    )
}

// --- laws --------------------------------------------------------------------------------

/// Whether a cell holds an optional text: nothing without one, else a field that
/// reads back as it.
pub open spec fn holds_text(cell: Seq<char>, s: Option<Seq<char>>) -> bool {
    match s {
        None => cell.len() == 0,
        Some(t) => read_field(cell) == Some(t),
    }
}

/// An optional text is read back from its cell.
proof fn lemma_text_cell(s: Option<String>)
    ensures
        holds_text(opt_field(s), s.deep_view()),
{
    match s {
        Some(t) => lemma_field_reads_back(t@),
        None => {},
    }
}

/// A connect is read back from its row: host, destination, success, latency and
/// failure mode, in this order.
pub proof fn lemma_tcp_row_reads_back(host: Seq<char>, o: TcpObservation)
    requires
        o.destination.ip is V4 ==> o.destination.scope_id == 0,
    ensures
        ({
            let c = tcp_cells(host, o);
            &&& c.len() == 5
            &&& read_field(c[0]) == Some(host)
            &&& read_field(c[1]) matches Some(d) && parse_socket(d) == Some(o.destination)
            &&& c[2][0] == (if o.success {
                '1'
            } else {
                '0'
            })
            &&& holds_number(c[3], o.latency_ms)
            &&& o.failure is None ==> c[4].len() == 0
            &&& o.failure matches Some(f) ==> read_field(c[4]) == Some(f.kind.text())
        }),
{
    lemma_field_reads_back(host);
    lemma_field_reads_back(o.destination.text());
    lemma_destination_reads_back(o.destination);
    lemma_flag_cell(o.success);
    lemma_number_cell(o.latency_ms);
    match o.failure {
        Some(f) => lemma_field_reads_back(f.kind.text()),
        None => {},
    }
}

/// The cells of a certificate are read back.
proof fn lemma_cert_cells(cert: Option<CertificateSummary>)
    ensures
        cert_cells(cert).len() == 4,
        cert matches Some(c) ==> read_field(cert_cells(cert)[0]) == Some(c.subject@) && read_field(cert_cells(cert)[1])
            == Some(c.issuer@) && holds_text(cert_cells(cert)[2], c.not_after_utc.deep_view()),
        cert is None ==> cert_cells(cert)[0].len() == 0 && cert_cells(cert)[1].len() == 0 && cert_cells(cert)[2].len()
            == 0 && cert_cells(cert)[3].len() == 0,
{
    match cert {
        Some(c) => {
            lemma_field_reads_back(c.subject@);
            lemma_field_reads_back(c.issuer@);
            lemma_text_cell(c.not_after_utc);
        },
        None => {},
    }
}

/// The parts of a handshake's row, by position.
proof fn lemma_handshake_parts(a: Seq<Seq<char>>, b: Seq<Seq<char>>, c: Seq<Seq<char>>)
    requires
        a.len() == 7,
        b.len() == 4,
        c.len() == 3,
    ensures
        (a + b + c).len() == 14,
        forall|i: int| 0 <= i < 7 ==> #[trigger] (a + b + c)[i] == a[i],
        (a + b + c)[7] == b[0] && (a + b + c)[8] == b[1] && (a + b + c)[9] == b[2] && (a + b + c)[10] == b[3],
        (a + b + c)[11] == c[0] && (a + b + c)[12] == c[1] && (a + b + c)[13] == c[2],
{
}

/// A handshake is read back from its row.
#[verifier::rlimit(40)]
pub proof fn lemma_tls_row_reads_back(host: Seq<char>, o: TlsObservation)
    requires
        o.destination.ip is V4 ==> o.destination.scope_id == 0,
    ensures
        ({
            let c = tls_cells(host, o);
            &&& c.len() == 14
            &&& read_field(c[0]) == Some(host)
            &&& read_field(c[1]) matches Some(d) && parse_socket(d) == Some(o.destination)
            &&& read_field(c[2]) == Some(o.sni@)
            &&& c[3][0] == (if o.success {
                '1'
            } else {
                '0'
            })
            &&& holds_text(c[4], o.version.deep_view()) && holds_text(c[5], o.cipher.deep_view()) && holds_text(
                c[6],
                o.alpn.deep_view(),
            )
            &&& o.certificate matches Some(cert) ==> read_field(c[7]) == Some(cert.subject@) && read_field(c[8]) == Some(
                cert.issuer@,
            ) && holds_text(c[9], cert.not_after_utc.deep_view()) && (c[11] == "yes"@ <==> covers(o.sni@, cert.sans@))
            &&& o.certificate is None ==> c[7].len() == 0 && c[8].len() == 0 && c[9].len() == 0 && c[10].len() == 0
                && c[11].len() == 0
            &&& holds_number(c[12], o.latency_ms)
            &&& o.failure is None ==> c[13].len() == 0
            &&& o.failure matches Some(f) ==> read_field(c[13]) == Some(f.kind.text())
        }),
{
    lemma_field_reads_back(host);
    lemma_field_reads_back(o.destination.text());
    lemma_field_reads_back(o.sni@);
    lemma_destination_reads_back(o.destination);
    lemma_flag_cell(o.success);
    lemma_number_cell(o.latency_ms);
    lemma_text_cell(o.version);
    lemma_text_cell(o.cipher);
    lemma_text_cell(o.alpn);
    reveal_strlit("yes");
    reveal_strlit("no");
    assert("yes"@.len() == 3 && "no"@.len() == 2);
    lemma_cert_cells(o.certificate);
    lemma_handshake_parts(
        seq![
            field(host),
            field(o.destination.text()),
            field(o.sni@),
            flag(o.success),
            opt_field(o.version),
            opt_field(o.cipher),
            opt_field(o.alpn),
        ],
        cert_cells(o.certificate),
        seq![covers_field(o.sni@, o.certificate), opt_dec(o.latency_ms), failure_field(o.failure)],
    );
    match o.failure {
        Some(f) => lemma_field_reads_back(f.kind.text()),
        None => {},
    }
}

/// A handshake within a request takes nine cells.
proof fn lemma_handshake_cells(tls: Option<TlsObservation>)
    ensures
        handshake_cells(tls).len() == 9,
{
}

/// Three parts of a row, by position.
proof fn lemma_three_parts(a: Seq<Seq<char>>, b: Seq<Seq<char>>, c: Seq<Seq<char>>)
    requires
        a.len() == 8,
        b.len() == 9,
        c.len() == 3,
    ensures
        (a + b + c).len() == 20,
        forall|i: int| 0 <= i < 8 ==> #[trigger] (a + b + c)[i] == a[i],
        (a + b + c)[18] == c[1],
        (a + b + c)[19] == c[2],
{
}

/// A request is read back from its row.
#[verifier::rlimit(40)]
pub proof fn lemma_http_row_reads_back(host: Seq<char>, o: HttpObservation)
    requires
        o.destination.ip is V4 ==> o.destination.scope_id == 0,
    ensures
        ({
            let c = http_cells(host, o);
            &&& c.len() == 20
            &&& read_field(c[0]) == Some(host)
            &&& read_field(c[1]) matches Some(d) && parse_socket(d) == Some(o.destination)
            &&& holds_text(c[2], o.protocol.deep_view())
            &&& o.status is None ==> c[3].len() == 0
            &&& o.status matches Some(s) ==> holds_number(c[3], Some(s as u64))
            &&& holds_text(c[4], o.location.deep_view())
            &&& holds_number(c[5], o.body_bytes) && holds_number(c[6], o.ttfb_ms) && holds_number(c[7], o.latency_ms)
            &&& holds_text(c[18], o.body_snippet.deep_view())
            &&& o.failure is None ==> c[19].len() == 0
            &&& o.failure matches Some(f) ==> read_field(c[19]) == Some(f.kind.text())
        }),
{
    lemma_field_reads_back(host);
    lemma_field_reads_back(o.destination.text());
    lemma_destination_reads_back(o.destination);
    lemma_number_cell(status_number(o.status));
    lemma_number_cell(o.body_bytes);
    lemma_number_cell(o.ttfb_ms);
    lemma_number_cell(o.latency_ms);
    lemma_text_cell(o.protocol);
    lemma_text_cell(o.location);
    lemma_text_cell(o.body_snippet);
    lemma_handshake_cells(o.tls);
    lemma_three_parts(
        seq![
            field(host),
            field(o.destination.text()),
            opt_field(o.protocol),
            opt_dec(status_number(o.status)),
            opt_field(o.location),
            opt_dec(o.body_bytes),
            opt_dec(o.ttfb_ms),
            opt_dec(o.latency_ms),
        ],
        handshake_cells(o.tls),
        seq![field(join(curated(o.headers@), "; "@)), opt_field(o.body_snippet), failure_field(o.failure)],
    );
    match o.failure {
        Some(f) => lemma_field_reads_back(f.kind.text()),
        None => {},
    }
}

/// A repeated probe is read back from its row: the counts, the percentiles of the
/// latency and of the time to first byte.
pub proof fn lemma_probe_row_reads_back(host: Seq<char>, r: ProbeResult)
    requires
        r.destination.ip is V4 ==> r.destination.scope_id == 0,
    ensures
        ({
            let c = probe_cells(host, r);
            &&& c.len() == 13
            &&& read_field(c[0]) == Some(host)
            &&& read_field(c[1]) matches Some(d) && parse_socket(d) == Some(r.destination)
            &&& holds_number(c[2], Some(r.attempts as u64))
            &&& c[3] == r.success_rate.decimal()
            &&& holds_number(c[4], r.latency.p50) && holds_number(c[5], r.latency.p95) && holds_number(c[6], r.latency.max)
                && holds_number(c[7], r.latency.jitter)
            &&& holds_number(c[8], r.ttfb.p50) && holds_number(c[9], r.ttfb.p95) && holds_number(c[10], r.ttfb.max)
            &&& holds_number(c[11], Some(r.failures as u64))
        }),
{
    lemma_field_reads_back(host);
    lemma_field_reads_back(r.destination.text());
    lemma_destination_reads_back(r.destination);
    lemma_number_cell(Some(r.attempts as u64));
    lemma_number_cell(Some(r.failures as u64));
    lemma_number_cell(r.latency.p50);
    lemma_number_cell(r.latency.p95);
    lemma_number_cell(r.latency.max);
    lemma_number_cell(r.latency.jitter);
    lemma_number_cell(r.ttfb.p50);
    lemma_number_cell(r.ttfb.p95);
    lemma_number_cell(r.ttfb.max);
}

/// A lookup is read back from its row, whether it was repeated or not.
pub proof fn lemma_lookup_rows_read_back(host: Seq<char>, r: DnsRepeatResult, o: DnsObservation)
    ensures
        ({
            let c = repeat_cells(host, r);
            &&& c.len() == 11
            &&& read_field(c[0]) == Some(host)
            &&& read_field(c[2]) == Some(r.record_type.text())
            &&& holds_number(c[3], Some(r.attempts as u64))
            &&& c[4] == r.success_rate.decimal()
            &&& holds_number(c[5], r.latency.p50) && holds_number(c[6], r.latency.p95) && holds_number(c[7], r.latency.max)
            &&& holds_number(c[8], Some(r.failures as u64))
            &&& r.ttl is None ==> c[9].len() == 0
            &&& r.ttl matches Some(n) ==> holds_number(c[9], Some(n as u64))
        }),
        ({
            let c = lookup_cells(host, o);
            &&& c.len() == 11
            &&& read_field(c[0]) == Some(host)
            &&& read_field(c[2]) == Some(o.record_type.text())
            &&& holds_number(c[5], o.latency_ms) && holds_number(c[6], o.latency_ms) && holds_number(c[7], o.latency_ms)
            &&& c[8][0] == (if o.error is Some {
                '1'
            } else {
                '0'
            })
            &&& o.ttl is None ==> c[9].len() == 0
            &&& o.ttl matches Some(n) ==> holds_number(c[9], Some(n as u64))
            &&& read_field(c[10]) == Some(join(record_texts(o.records@), ", "@))
        }),
{
    lemma_field_reads_back(host);
    lemma_field_reads_back(r.record_type.text());
    lemma_field_reads_back(o.record_type.text());
    lemma_field_reads_back(join(record_texts(o.records@), ", "@));
    lemma_number_cell(Some(r.attempts as u64));
    lemma_number_cell(Some(r.failures as u64));
    lemma_number_cell(r.latency.p50);
    lemma_number_cell(r.latency.p95);
    lemma_number_cell(r.latency.max);
    lemma_number_cell(ttl_number(r.ttl));
    lemma_number_cell(ttl_number(o.ttl));
    lemma_number_cell(o.latency_ms);
    lemma_flag_cell(o.error is Some);
}

/// A hop is read back from its row, and so are the aggregates of a repeated one.
pub proof fn lemma_hop_rows_read_back(h: RouteHop, s: RouteHopStats, runs: usize)
    ensures
        ({
            let c = hop_cells(h);
            &&& c.len() == 5
            &&& holds_number(c[0], Some(h.ttl as u64))
            &&& holds_text(c[1], h.hostname.deep_view())
            &&& h.addr is None ==> c[2].len() == 0
            &&& h.addr matches Some(a) ==> (read_field(c[2]) matches Some(t) && parse_ip(t) == Some(a))
            &&& holds_number(c[3], h.rtt_ms)
            &&& c[4][0] == (if h.lost {
                '1'
            } else {
                '0'
            })
        }),
        ({
            let c = stats_cells(s, runs as nat);
            &&& c.len() == 9
            &&& holds_number(c[0], Some(s.ttl as u64))
            &&& holds_text(c[1], s.hostname.deep_view())
            &&& read_field(c[2]) == Some(join(address_texts(s.addrs@), ";"@))
            &&& holds_number(c[3], s.rtt.min) && holds_number(c[4], s.rtt.p50) && holds_number(c[5], s.rtt.max)
            &&& holds_number(c[6], Some(s.answered as u64)) && holds_number(c[7], Some(runs as u64))
            &&& c[8][0] == (if s.path_changed {
                '1'
            } else {
                '0'
            })
        }),
{
    lemma_number_cell(Some(h.ttl as u64));
    lemma_number_cell(h.rtt_ms);
    lemma_text_cell(h.hostname);
    lemma_flag_cell(h.lost);
    match h.addr {
        Some(a) => {
            lemma_field_reads_back(a.text());
            lemma_address_reads_back(a);
        },
        None => {},
    }
    lemma_number_cell(Some(s.ttl as u64));
    lemma_number_cell(Some(s.answered as u64));
    lemma_number_cell(Some(runs as u64));
    lemma_number_cell(s.rtt.min);
    lemma_number_cell(s.rtt.p50);
    lemma_number_cell(s.rtt.max);
    lemma_text_cell(s.hostname);
    lemma_flag_cell(s.path_changed);
    lemma_field_reads_back(join(address_texts(s.addrs@), ";"@));
}

/// A sweep has one row for each observation of each target, target by target and
/// in order.
pub proof fn lemma_every_observation_has_a_row(
    tcp: Seq<(String, Vec<TcpObservation>)>,
    tls: Seq<(String, Vec<TlsObservation>)>,
    http: Seq<(String, Vec<HttpObservation>)>,
    probes: Seq<(String, Vec<ProbeResult>)>,
)
    ensures
        tcp_table(tcp) == tcp.map_values(
            |t: (String, Vec<TcpObservation>)| t.1@.map_values(|o: TcpObservation| tcp_cells(t.0@, o)),
        ).flatten(),
        tls_table(tls) == tls.map_values(
            |t: (String, Vec<TlsObservation>)| t.1@.map_values(|o: TlsObservation| tls_cells(t.0@, o)),
        ).flatten(),
        http_table(http) == http.map_values(
            |t: (String, Vec<HttpObservation>)| t.1@.map_values(|o: HttpObservation| http_cells(t.0@, o)),
        ).flatten(),
        probe_table(probes) == probes.map_values(
            |t: (String, Vec<ProbeResult>)| t.1@.map_values(|o: ProbeResult| probe_cells(t.0@, o)),
        ).flatten(),
    decreases tcp.len() + tls.len() + http.len() + probes.len(),
{
    let f = |t: (String, Vec<TcpObservation>)| t.1@.map_values(|o: TcpObservation| tcp_cells(t.0@, o));
    let g = |t: (String, Vec<TlsObservation>)| t.1@.map_values(|o: TlsObservation| tls_cells(t.0@, o));
    let h = |t: (String, Vec<HttpObservation>)| t.1@.map_values(|o: HttpObservation| http_cells(t.0@, o));
    let k = |t: (String, Vec<ProbeResult>)| t.1@.map_values(|o: ProbeResult| probe_cells(t.0@, o));
    if tcp.len() > 0 {
        lemma_every_observation_has_a_row(tcp.drop_last(), tls, http, probes);
        let front = tcp.drop_last().map_values(f);
        assert(tcp.map_values(f) =~= front.push(f(tcp.last())));
        front.lemma_flatten_push(f(tcp.last()));
    } else if tls.len() > 0 {
        lemma_every_observation_has_a_row(tcp, tls.drop_last(), http, probes);
        let front = tls.drop_last().map_values(g);
        assert(tls.map_values(g) =~= front.push(g(tls.last())));
        front.lemma_flatten_push(g(tls.last()));
    } else if http.len() > 0 {
        lemma_every_observation_has_a_row(tcp, tls, http.drop_last(), probes);
        let front = http.drop_last().map_values(h);
        assert(http.map_values(h) =~= front.push(h(http.last())));
        front.lemma_flatten_push(h(http.last()));
    } else if probes.len() > 0 {
        lemma_every_observation_has_a_row(tcp, tls, http, probes.drop_last());
        let front = probes.drop_last().map_values(k);
        assert(probes.map_values(k) =~= front.push(k(probes.last())));
        front.lemma_flatten_push(k(probes.last()));
    } else {
        assert(tcp.map_values(f) =~= Seq::empty());
        assert(tls.map_values(g) =~= Seq::empty());
        assert(http.map_values(h) =~= Seq::empty());
        assert(probes.map_values(k) =~= Seq::empty());
    }
}

/// A lookup table has one row for each lookup of each target, or for each
/// aggregate where the lookups were repeated, target by target and in order.
pub proof fn lemma_every_lookup_has_a_row(s: Seq<TargetDns>)
    ensures
        dns_table(s) == s.map_values(
            |o: TargetDns|
                if o.repeat {
                    o.results@.map_values(|r: DnsRepeatResult| repeat_cells(o.host@, r))
                } else {
                    o.observations@.map_values(|x: DnsObservation| lookup_cells(o.host@, x))
                },
        ).flatten(),
    decreases s.len(),
{
    let f = |o: TargetDns|
        if o.repeat {
            o.results@.map_values(|r: DnsRepeatResult| repeat_cells(o.host@, r))
        } else {
            o.observations@.map_values(|x: DnsObservation| lookup_cells(o.host@, x))
        };
    if s.len() > 0 {
        lemma_every_lookup_has_a_row(s.drop_last());
        let front = s.drop_last().map_values(f);
        assert(s.map_values(f) =~= front.push(f(s.last())));
        front.lemma_flatten_push(f(s.last()));
        assert(f(s.last()) =~= dns_rows(s.last()));
    } else {
        assert(s.map_values(f) =~= Seq::empty());
    }
}

/// The statuses of a probe are read back from its row: each as the status, a cross
/// and its count, one behind the other.
pub proof fn lemma_statuses_of_a_probe_row(host: Seq<char>, r: ProbeResult)
    ensures
        read_field(probe_cells(host, r)[12]) == Some(
            join(
                r.status_counts@.map_values(
                    |s: StatusCount| dec(s.status as nat) + "x"@ + dec(s.count as nat),
                ),
                ";"@,
            ),
        ),
{
    let tokens = r.status_counts@.map_values(|s: StatusCount| dec(s.status as nat) + "x"@ + dec(s.count as nat));
    assert(count_tokens(r.status_counts@) =~= tokens);
    lemma_field_reads_back(join(tokens, ";"@));
}

/// The headers of a request row are those that are shown, in order, each as its
/// name and its value.
pub proof fn lemma_headers_of_a_request_row(headers: Seq<(String, String)>)
    ensures
        curated(headers) == headers.filter(|h: (String, String)| is_shown(h.0@)).map_values(
            |h: (String, String)| h.0@ + ": "@ + h.1@,
        ),
    decreases headers.len(),
{
    reveal(Seq::filter);
    if headers.len() > 0 {
        lemma_headers_of_a_request_row(headers.drop_last());
    }
    assert(curated(headers) =~= headers.filter(|h: (String, String)| is_shown(h.0@)).map_values(
        |h: (String, String)| h.0@ + ": "@ + h.1@,
    ));
}

} // verus!
