//! Human rendering of HTTP observations.

use super::cert::{name_differs, presented_name_differs};
use super::date::{today, valid_day};
use super::layout::{
    by_class, failure_text, line, ms_or_dash, ms_text, opt_line, push_line, push_opt_line, render_failure,
    render_status, safe_text, sanitize_snippet,
};
use super::transport::{cert_lines, push_cert_lines};
use crate::model::HttpObservation;
use crate::style::{red, yellow, Style};
use crate::text::{dec, dec_text, glue, lower, same_ignoring_case, same_text};
use vstd::prelude::*;

verus! {

/// The response headers worth a line in the terminal: server identity,
/// CDN/proxy hops, caching and security markers.
pub open spec fn shown_headers() -> Seq<Seq<char>> {
    seq![
        "server"@,
        "via"@,
        "x-powered-by"@,
        "x-served-by"@,
        "x-cache"@,
        "x-cache-hits"@,
        "cf-ray"@,
        "cf-cache-status"@,
        "age"@,
        "cache-control"@,
        "expires"@,
        "etag"@,
        "last-modified"@,
        "content-type"@,
        "alt-svc"@,
        "set-cookie"@,
    ]
}

/// Whether a header is shown: its name is listed, in any case.
pub open spec fn is_shown(name: Seq<char>) -> bool {
    exists|i: int| 0 <= i < shown_headers().len() && lower(name) == lower(#[trigger] shown_headers()[i])
}

/// The shown headers.
pub open spec fn header_lines(headers: Seq<(String, String)>) -> Seq<char>
    decreases headers.len(),
{
    if headers.len() == 0 {
        Seq::empty()
    } else {
        let front = header_lines(headers.drop_last());
        let (name, value) = headers.last();
        if is_shown(name@) {
            front + line("    "@ + name@ + ": "@, value@)
        } else {
            front
        }
    }
}

/// Whether a header is shown.
pub fn shows_header(name: &str) -> (r: bool)
    ensures
        r == is_shown(name@),
{
    let shown: Vec<&str> = vec![
        "server",
        "via",
        "x-powered-by",
        "x-served-by",
        "x-cache",
        "x-cache-hits",
        "cf-ray",
        "cf-cache-status",
        "age",
        "cache-control",
        "expires",
        "etag",
        "last-modified",
        "content-type",
        "alt-svc",
        "set-cookie",
    ];
    assert(shown@.len() == shown_headers().len());
    assert(forall|j: int| 0 <= j < shown@.len() ==> (#[trigger] shown@[j])@ == shown_headers()[j]);
    for i in 0..shown.len()
        invariant
            shown@.len() == shown_headers().len(),
            forall|j: int| 0 <= j < shown@.len() ==> (#[trigger] shown@[j])@ == shown_headers()[j],
            forall|j: int| 0 <= j < i ==> lower(name@) != lower(#[trigger] shown_headers()[j]),
    {
        assert(shown@[i as int]@ == shown_headers()[i as int]);
        if same_ignoring_case(name, shown[i]) {
            assert(lower(name@) == lower(shown_headers()[i as int]));
            return true;
        }
    }
    false
}

/// Append the shown headers.
fn push_headers(out: &mut String, headers: &[(String, String)])
    ensures
        final(out)@ == old(out)@ + header_lines(headers@),
{
    let ghost before = out@;
    assert(before + Seq::<char>::empty() =~= before);
    for i in 0..headers.len()
        invariant
            out@ == before + header_lines(headers@.take(i as int)),
    {
        let ghost front = header_lines(headers@.take(i as int));
        assert(headers@.take(i as int + 1).drop_last() =~= headers@.take(i as int));
        let name = headers[i].0.as_str();
        let value = headers[i].1.as_str();
        if shows_header(name) {
            let mut prefix = glue("    ", name);
            prefix.append(": ");
            push_line(out, prefix.as_str(), value);
            assert(out@ =~= before + (front + line("    "@ + name@ + ": "@, value@)));
        }
    }
    assert(headers@.take(headers@.len() as int) =~= headers@);
}

/// The protocol of a request as shown.
pub open spec fn protocol_text(o: HttpObservation) -> Seq<char> {
    match o.protocol {
        Some(p) => p@,
        None => "HTTP/1.1"@,
    }
}

/// The status of a response as shown.
pub open spec fn status_text(color: bool, o: HttpObservation) -> Seq<char> {
    match o.status {
        Some(s) => by_class(color, s, dec(s as nat)),
        None => "no status"@,
    }
}

/// The TLS layer of a request as shown.
pub open spec fn tls_part(color: bool, o: HttpObservation, today: Option<i64>) -> Seq<char> {
    match o.tls {
        Some(tls) => opt_line("    TLS: "@, tls.version) + opt_line("    ALPN: "@, tls.alpn) + cert_lines(
            color,
            tls.sni@,
            tls.certificate,
            today,
        ),
        None => Seq::empty(),
    }
}

/// The size of a body as shown. A capped body is not the true size, and a
/// response whose body never completed is visibly incomplete.
pub open spec fn body_part(color: bool, o: HttpObservation) -> Seq<char> {
    match o.body_bytes {
        Some(bytes) => if o.body_capped {
            "    "@ + yellow(color, "body (capped)"@) + ": "@ + dec(bytes as nat) + " bytes\n"@
        } else {
            "    body: "@ + dec(bytes as nat) + " bytes\n"@
        },
        None => if o.status is Some {
            line("    "@, yellow(color, "body: incomplete (timed out)"@))
        } else {
            Seq::empty()
        },
    }
}

/// The beginning of a body as shown.
pub open spec fn snippet_part(o: HttpObservation) -> Seq<char> {
    match o.body_snippet {
        Some(s) => line("    body content: "@, safe_text(s@)),
        None => Seq::empty(),
    }
}

/// The time to the first byte as shown.
pub open spec fn ttfb_part(o: HttpObservation) -> Seq<char> {
    match o.ttfb_ms {
        Some(ms) => line("    ttfb:    "@, dec(ms as nat) + " ms"@),
        None => Seq::empty(),
    }
}

/// What a request got, or why it failed, as shown.
pub open spec fn http_body(color: bool, o: HttpObservation, today: Option<i64>) -> Seq<char> {
    match o.failure {
        Some(e) => line("    "@, red(color, protocol_text(o) + " "@ + failure_text(e))),
        None => line("    "@ + protocol_text(o) + " "@, status_text(color, o)) + opt_line("    redirect: "@, o.location)
            + tls_part(color, o, today) + header_lines(o.headers@) + body_part(color, o) + snippet_part(o) + line(
            "    latency: "@,
            ms_text(o.latency_ms),
        ) + ttfb_part(o),
    }
}

/// The presented host and the requested path as shown, where they are not the
/// ordinary ones.
pub open spec fn http_head(o: HttpObservation) -> Seq<char> {
    line("  "@, o.destination.text()) + (if name_differs(o.host@, o.destination) {
        line("    host: "@, o.host@)
    } else {
        Seq::empty()
    }) + (if o.path@ != "/"@ {
        line("    path: "@, o.path@)
    } else {
        Seq::empty()
    })
}

/// A request as shown.
#[verifier::opaque]
pub open spec fn http_row(color: bool, o: HttpObservation, today: Option<i64>) -> Seq<char> {
    http_head(o) + http_body(color, o, today)
}

/// Requests as shown.
pub open spec fn http_rows(color: bool, s: Seq<HttpObservation>, today: Option<i64>) -> Seq<char>
    decreases s.len(),
{
    if s.len() == 0 {
        Seq::empty()
    } else {
        http_rows(color, s.drop_last(), today) + http_row(color, s.last(), today)
    }
}

/// The HTTP report on a day, headed `HTTP` for a cleartext run and `HTTPS`
/// otherwise.
pub open spec fn http_report(color: bool, plain: bool, s: Seq<HttpObservation>, today: Option<i64>) -> Seq<char> {
    (if plain {
        "HTTP\n"@
    } else {
        "HTTPS\n"@
    }) + http_rows(color, s, today)
}

/// The presented host and the requested path.
fn render_http_head(o: &HttpObservation) -> (out: String)
    ensures
        out@ == http_head(*o),
{
    let mut out = String::new();
    let destination = o.destination.to_text();
    push_line(&mut out, "  ", destination.as_str());
    let ghost first = line("  "@, destination@);
    assert(out@ =~= first);
    if presented_name_differs(o.host.as_str(), o.destination) {
        push_line(&mut out, "    host: ", o.host.as_str());
    }
    let ghost second = if name_differs(o.host@, o.destination) {
        line("    host: "@, o.host@)
    } else {
        Seq::empty()
    };
    assert(out@ =~= first + second);
    if !same_text(o.path.as_str(), "/") {
        push_line(&mut out, "    path: ", o.path.as_str());
    }
    assert(out@ =~= http_head(*o));
    out
}

/// Append the size of a body.
fn push_body_part(out: &mut String, style: Style, o: &HttpObservation)
    ensures
        final(out)@ == old(out)@ + body_part(style.on(), *o),
{
    let ghost before = out@;
    match o.body_bytes {
        Some(bytes) => {
            let mut part = if o.body_capped {
                let mut part = glue("    ", style.warn("body (capped)").as_str());
                part.append(": ");
                part
            } else {
                "    body: ".to_owned()
            };
            part.append(dec_text(bytes).as_str());
            part.append(" bytes\n");
            out.append(part.as_str());
        },
        None => {
            if o.status.is_some() {
                push_line(out, "    ", style.warn("body: incomplete (timed out)").as_str());
            }
        },
    }
    assert(out@ =~= before + body_part(style.on(), *o));
}

/// What a request got, or why it failed.
fn render_http_body(style: Style, o: &HttpObservation, today: Option<i64>) -> (out: String)
    requires
        valid_day(today),
    ensures
        out@ == http_body(style.on(), *o, today),
{
    let protocol = match &o.protocol {
        Some(p) => p.as_str(),
        None => "HTTP/1.1",
    };
    let mut out = String::new();
    assert(out@ =~= Seq::empty());
    match &o.failure {
        Some(e) => {
            let mut text = glue(protocol, " ");
            text.append(render_failure(e).as_str());
            push_line(&mut out, "    ", style.fail(text.as_str()).as_str());
            assert(out@ =~= http_body(style.on(), *o, today));
            return out;
        },
        None => {},
    }
    let status = match o.status {
        Some(s) => render_status(style, s),
        None => "no status".to_owned(),
    };
    let mut prefix = glue("    ", protocol);
    prefix.append(" ");
    push_line(&mut out, prefix.as_str(), status.as_str());
    assert(out@ =~= line(prefix@, status@));
    push_opt_line(&mut out, "    redirect: ", &o.location);
    let ghost before = out@;
    match &o.tls {
        Some(tls) => {
            push_opt_line(&mut out, "    TLS: ", &tls.version);
            push_opt_line(&mut out, "    ALPN: ", &tls.alpn);
            push_cert_lines(&mut out, style, tls.sni.as_str(), &tls.certificate, today);
        },
        None => {},
    }
    assert(out@ =~= before + tls_part(style.on(), *o, today));
    push_headers(&mut out, o.headers.as_slice());
    push_body_part(&mut out, style, o);
    let ghost before = out@;
    match &o.body_snippet {
        Some(s) => push_line(&mut out, "    body content: ", sanitize_snippet(s.as_str()).as_str()),
        None => {},
    }
    assert(out@ =~= before + snippet_part(*o));
    push_line(&mut out, "    latency: ", ms_or_dash(o.latency_ms).as_str());
    let ghost before = out@;
    match o.ttfb_ms {
        Some(ms) => {
            let mut text = dec_text(ms);
            text.append(" ms");
            push_line(&mut out, "    ttfb:    ", text.as_str());
        },
        None => {},
    }
    assert(out@ =~= before + ttfb_part(*o));
    out
}

/// A request as shown.
fn render_http_row(style: Style, o: &HttpObservation, today: Option<i64>) -> (out: String)
    requires
        valid_day(today),
    ensures
        out@ == http_row(style.on(), *o, today),
{
    let mut out = render_http_head(o);
    out.append(render_http_body(style, o, today).as_str());
    proof {
        reveal(http_row);
    }
    out
}

/// Render HTTP observations as human text, certificate lifetimes as of a day;
/// `plain` selects the heading only.
pub fn render_http_at(style: &Style, plain: bool, observations: &[HttpObservation], today: Option<i64>) -> (out: String)
    requires
        valid_day(today),
    ensures
        out@ == http_report(style.on(), plain, observations@, today),
{
    let mut out = (if plain {
        "HTTP\n"
    } else {
        "HTTPS\n"
    }).to_owned();
    let ghost head = out@;
    assert(head + Seq::<char>::empty() =~= head);
    for i in 0..observations.len()
        invariant
            valid_day(today),
            out@ == head + http_rows(style.on(), observations@.take(i as int), today),
    {
        let ghost rows = http_rows(style.on(), observations@.take(i as int), today);
        assert(observations@.take(i as int + 1).drop_last() =~= observations@.take(i as int));
        let row = render_http_row(*style, &observations[i], today);
        out.append(row.as_str());
        assert(out@ =~= head + (rows + row@));
    }
    assert(observations@.take(observations@.len() as int) =~= observations@);
    out
}

/// Render HTTPS observations as human text.
///
/// HTTP/2 and HTTP/3 always run over TLS, and HTTP/1.1 defaults to it, so the
/// block is headed `HTTPS` — including a run whose handshake failed. Cleartext
/// runs use [`render_http_plain`] instead. Certificate lifetimes are shown by
/// the system clock, which is read once.
pub fn render_http(style: &Style, observations: &[HttpObservation]) -> (out: String)
    ensures
        exists|now: Option<i64>| #[trigger]
            valid_day(now) && out@ == http_report(style.on(), false, observations@, now),
{
    let now = today();
    render_http_at(style, false, observations, now)
}

/// Render a cleartext run's observations as human text, headed `HTTP`.
pub fn render_http_plain(style: &Style, observations: &[HttpObservation]) -> (out: String)
    ensures
        exists|now: Option<i64>| #[trigger]
            valid_day(now) && out@ == http_report(style.on(), true, observations@, now),
{
    let now = today();
    render_http_at(style, true, observations, now)
}

} // verus!
