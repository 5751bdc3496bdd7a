//! Human rendering of TCP and TLS observations.

use super::cert::{cert_covers_hostname, cert_text, covers, name_differs, presented_name_differs, render_cert};
use super::date::{today, valid_day};
use super::layout::{
    byte_len, failure_text, larger, left, line, ms_or_dash, ms_text, opt_line, pad_left_aligned, push_line,
    push_opt_line, render_failure,
};
use crate::model::{CertificateSummary, TcpObservation, TlsObservation};
use crate::style::{green, red, Style};
use crate::text::glue;
use vstd::prelude::*;

verus! {

// --- TCP ---------------------------------------------------------------------------------

/// The least width of the destination column.
pub const DESTINATION_WIDTH: usize = 24;

/// The width of the destination column: that of the longest destination.
pub open spec fn destination_width(s: Seq<TcpObservation>) -> nat
    decreases s.len(),
{
    if s.len() == 0 {
        DESTINATION_WIDTH as nat
    } else {
        larger(destination_width(s.drop_last()), byte_len(s.last().destination.text()))
    }
}

/// The outcome of a connection attempt as shown. The padded token is painted
/// as a whole so the fixed column survives coloring.
pub open spec fn tcp_status(color: bool, o: TcpObservation) -> Seq<char> {
    if o.success {
        green(color, "PASS      "@ + ms_text(o.latency_ms))
    } else {
        red(
            color,
            left(
                match o.failure {
                    Some(e) => e.kind.text(),
                    None => "failed"@,
                },
                10,
            ),
        )
    }
}

/// A connection attempt as shown.
pub open spec fn tcp_row(color: bool, o: TcpObservation, width: nat) -> Seq<char> {
    "  "@ + left(o.destination.text(), width) + " "@ + tcp_status(color, o) + "\n"@
}

/// Connection attempts as shown.
pub open spec fn tcp_rows(color: bool, s: Seq<TcpObservation>, width: nat) -> Seq<char>
    decreases s.len(),
{
    if s.len() == 0 {
        Seq::empty()
    } else {
        tcp_rows(color, s.drop_last(), width) + tcp_row(color, s.last(), width)
    }
}

/// The TCP report.
pub open spec fn tcp_report(color: bool, s: Seq<TcpObservation>) -> Seq<char> {
    "TCP connect\n"@ + tcp_rows(color, s, destination_width(s))
}

/// The width of the destination column.
fn widest_destination(s: &[TcpObservation]) -> (w: usize)
    ensures
        w == destination_width(s@),
{
    let mut w: usize = DESTINATION_WIDTH;
    for i in 0..s.len()
        invariant
            w == destination_width(s@.take(i as int)),
    {
        assert(s@.take(i as int + 1).drop_last() =~= s@.take(i as int));
        let n = s[i].destination.to_text().as_str().as_bytes().len();
        if w < n {
            w = n;
        }
    }
    assert(s@.take(s@.len() as int) =~= s@);
    w
}

/// A connection attempt as shown.
fn render_tcp_row(style: Style, o: &TcpObservation, width: usize) -> (out: String)
    ensures
        out@ == tcp_row(style.on(), *o, width as nat),
{
    let status = if o.success {
        style.pass(glue("PASS      ", ms_or_dash(o.latency_ms).as_str()).as_str())
    } else {
        let err = match &o.failure {
            Some(e) => e.kind.to_text(),
            None => "failed",
        };
        style.fail(pad_left_aligned(err, 10).as_str())
    };
    let mut out = "  ".to_owned();
    out.append(pad_left_aligned(o.destination.to_text().as_str(), width).as_str());
    out.append(" ");
    out.append(status.as_str());
    out.append("\n");
    out
}

/// Render TCP observations as human text. The column width is shared across
/// all rows, so a long destination leaves no status column ragged.
pub fn render_tcp(style: &Style, observations: &[TcpObservation]) -> (out: String)
    ensures
        out@ == tcp_report(style.on(), observations@),
{
    let width = widest_destination(observations);
    let mut out = "TCP connect\n".to_owned();
    let ghost head = out@;
    assert(head + Seq::<char>::empty() =~= head);
    for i in 0..observations.len()
        invariant
            out@ == head + tcp_rows(style.on(), observations@.take(i as int), width as nat),
    {
        let ghost rows = tcp_rows(style.on(), observations@.take(i as int), width as nat);
        assert(observations@.take(i as int + 1).drop_last() =~= observations@.take(i as int));
        let row = render_tcp_row(*style, &observations[i], width);
        out.append(row.as_str());
        assert(out@ =~= head + (rows + row@));
    }
    assert(observations@.take(observations@.len() as int) =~= observations@);
    out
}

// --- TLS ---------------------------------------------------------------------------------

/// The certificate of a handshake as shown, and whether it covers the
/// presented name.
pub open spec fn cert_lines(
    color: bool,
    sni: Seq<char>,
    certificate: Option<CertificateSummary>,
    today: Option<i64>,
) -> Seq<char> {
    match certificate {
        Some(cert) => line("    cert : "@, cert_text(color, cert, today)) + line(
            "    covers "@ + sni + ": "@,
            if covers(sni, cert.sans@) {
                green(color, "yes"@)
            } else {
                red(color, "no"@)
            },
        ),
        None => Seq::empty(),
    }
}

/// Append the certificate of a handshake.
pub fn push_cert_lines(
    out: &mut String,
    style: Style,
    sni: &str,
    certificate: &Option<CertificateSummary>,
    today: Option<i64>,
)
    requires
        valid_day(today),
    ensures
        final(out)@ == old(out)@ + cert_lines(style.on(), sni@, *certificate, today),
{
    let ghost before = out@;
    match certificate {
        Some(cert) => {
            push_line(out, "    cert : ", render_cert(style, cert, today).as_str());
            let answer = if cert_covers_hostname(sni, cert.sans.as_slice()) {
                style.pass("yes")
            } else {
                style.fail("no")
            };
            let mut prefix = glue("    covers ", sni);
            prefix.append(": ");
            push_line(out, prefix.as_str(), answer.as_str());
        },
        None => {},
    }
    assert(out@ =~= before + cert_lines(style.on(), sni@, *certificate, today));
}

/// What a handshake established, or why it failed, as shown.
pub open spec fn tls_body(color: bool, o: TlsObservation, today: Option<i64>) -> Seq<char> {
    if !o.success {
        line(
            "    "@,
            red(
                color,
                match o.failure {
                    Some(e) => failure_text(e),
                    None => "failed"@,
                },
            ),
        )
    } else {
        line(
            "    TLS: "@,
            match o.version {
                Some(v) => v@,
                None => "unknown"@,
            },
        ) + opt_line("    cipher: "@, o.cipher) + opt_line("    ALPN: "@, o.alpn) + cert_lines(
            color,
            o.sni@,
            o.certificate,
            today,
        ) + line("    latency: "@, ms_text(o.latency_ms))
    }
}

/// The presented name as shown, where it is not the destination's address.
pub open spec fn sni_line(o: TlsObservation) -> Seq<char> {
    if name_differs(o.sni@, o.destination) {
        line("    SNI: "@, o.sni@)
    } else {
        Seq::empty()
    }
}

/// A handshake as shown.
pub open spec fn tls_row(color: bool, o: TlsObservation, today: Option<i64>) -> Seq<char> {
    line("  "@, o.destination.text()) + sni_line(o) + tls_body(color, o, today)
}

/// Handshakes as shown.
pub open spec fn tls_rows(color: bool, s: Seq<TlsObservation>, today: Option<i64>) -> Seq<char>
    decreases s.len(),
{
    if s.len() == 0 {
        Seq::empty()
    } else {
        tls_rows(color, s.drop_last(), today) + tls_row(color, s.last(), today)
    }
}

/// The TLS report on a day.
pub open spec fn tls_report(color: bool, s: Seq<TlsObservation>, today: Option<i64>) -> Seq<char> {
    "TLS handshake\n"@ + tls_rows(color, s, today)
}

/// What a handshake established, or why it failed.
fn render_tls_body(style: Style, o: &TlsObservation, today: Option<i64>) -> (out: String)
    requires
        valid_day(today),
    ensures
        out@ == tls_body(style.on(), *o, today),
{
    let mut out = String::new();
    let ghost empty = out@;
    assert(empty =~= Seq::empty());
    if !o.success {
        let err = match &o.failure {
            Some(e) => render_failure(e),
            None => "failed".to_owned(),
        };
        push_line(&mut out, "    ", style.fail(err.as_str()).as_str());
        assert(out@ =~= tls_body(style.on(), *o, today));
        return out;
    }
    let version = match &o.version {
        Some(v) => v.as_str(),
        None => "unknown",
    };
    push_line(&mut out, "    TLS: ", version);
    assert(out@ =~= line("    TLS: "@, version@));
    push_opt_line(&mut out, "    cipher: ", &o.cipher);
    push_opt_line(&mut out, "    ALPN: ", &o.alpn);
    push_cert_lines(&mut out, style, o.sni.as_str(), &o.certificate, today);
    push_line(&mut out, "    latency: ", ms_or_dash(o.latency_ms).as_str());
    out
}

/// A handshake as shown.
fn render_tls_row(style: Style, o: &TlsObservation, today: Option<i64>) -> (out: String)
    requires
        valid_day(today),
    ensures
        out@ == tls_row(style.on(), *o, today),
{
    let mut out = String::new();
    let destination = o.destination.to_text();
    push_line(&mut out, "  ", destination.as_str());
    assert(out@ =~= line("  "@, destination@));
    let sni = if presented_name_differs(o.sni.as_str(), o.destination) {
        let mut sni = String::new();
        push_line(&mut sni, "    SNI: ", o.sni.as_str());
        assert(sni@ =~= sni_line(*o));
        sni
    } else {
        String::new()
    };
    assert(sni@ =~= sni_line(*o));
    out.append(sni.as_str());
    out.append(render_tls_body(style, o, today).as_str());
    out
}

/// Render TLS observations as human text, certificate lifetimes as of a day.
pub fn render_tls_at(style: &Style, observations: &[TlsObservation], today: Option<i64>) -> (out: String)
    requires
        valid_day(today),
    ensures
        out@ == tls_report(style.on(), observations@, today),
{
    let mut out = "TLS handshake\n".to_owned();
    let ghost head = out@;
    assert(head + Seq::<char>::empty() =~= head);
    for i in 0..observations.len()
        invariant
            valid_day(today),
            out@ == head + tls_rows(style.on(), observations@.take(i as int), today),
    {
        let ghost rows = tls_rows(style.on(), observations@.take(i as int), today);
        assert(observations@.take(i as int + 1).drop_last() =~= observations@.take(i as int));
        let row = render_tls_row(*style, &observations[i], today);
        out.append(row.as_str());
        assert(out@ =~= head + (rows + row@));
    }
    assert(observations@.take(observations@.len() as int) =~= observations@);
    out
}

/// Render TLS observations as human text. Certificate lifetimes are shown by
/// the system clock, which is read once.
pub fn render_tls(style: &Style, observations: &[TlsObservation]) -> (out: String)
    ensures
        exists|now: Option<i64>| #[trigger]
            valid_day(now) && out@ == tls_report(style.on(), observations@, now),
{
    let now = today();
    render_tls_at(style, observations, now)
}

} // verus!
