//! HTTP request probes over HTTP/1.1, HTTP/2 and HTTP/3: the request each
//! sends, the errors each step can end in, the bounded capture of the body and
//! the resulting observation.

use crate::http_common::{
    bare_host, body_snippet_string, first_bytes_of, push_bounded_body, snippet_text, uri_authority, uri_authority_at,
    uri_authority_at_text, uri_authority_text, wire_authority, wire_authority_text, wire_host, RequestHead,
    MAX_RESPONSE_HEADERS,
};
use crate::model::{CertificateSummary, FailureKind, HttpObservation, ProbeError, TlsObservation};
use crate::net::SocketAddr;
use crate::text::{dec, dec_text, lossy, lossy_text, lower, millis, millis_text, same_ignoring_case, utf8_text};
use vstd::prelude::*;
use vstd::utf8::{decode_utf8, valid_utf8};

verus! {

/// A request without a body, as the `http` crate represents it.
#[verifier::external_type_specification]
#[verifier::external_body]
#[verifier::reject_recursive_types(T)]
pub struct ExRequest<T>(hyper::Request<T>);

/// What [`build_request`] makes of a method, a target and headers.
pub uninterp spec fn built_request(method: Seq<char>, uri: Seq<char>, headers: Seq<(Seq<char>, Seq<char>)>) -> Result<
    hyper::Request<()>,
    Seq<char>,
>;

/// A built request, or the text of the error in its place.
pub open spec fn request_model(r: Result<hyper::Request<()>, String>) -> Result<hyper::Request<()>, Seq<char>> {
    match r {
        Ok(request) => Ok(request),
        Err(e) => Err(e@),
    }
}

/// `hyper::Request::builder`, with the method, the target, every header in
/// order and an empty body: the request, or the message of the builder's
/// error. The result is a function of these values alone; which of them the
/// builder rejects is left unsaid.
#[verifier::external_body]
pub(crate) fn build_request(head: &RequestHead) -> (r: Result<hyper::Request<()>, String>)
    ensures
        request_model(r) == built_request(head.method@, head.uri@, head.headers.deep_view()),
{
    let mut builder = hyper::Request::builder().method(head.method.as_str()).uri(head.uri.as_str());
    for (name, value) in &head.headers {
        builder = builder.header(name.as_str(), value.as_str());
    }
    builder.body(()).map_err(|e| e.to_string())
}

// --- requests -----------------------------------------------------------------------

/// The HTTP version a probe speaks.
#[derive(Debug, Clone, Copy, PartialEq, Eq, Structural)]
pub enum HttpVersion {
    Http1,
    Http2,
    Http3,
}

/// The headers as texts.
pub open spec fn header_texts(h: Seq<(String, String)>) -> Seq<(Seq<char>, Seq<char>)> {
    h.map_values(|p: (String, String)| (p.0@, p.1@))
}

/// Whether a header is the `host` header.
pub open spec fn is_host_header(name: Seq<char>) -> bool {
    lower(name) == lower("host"@)
}

/// The value of the first `host` header, if there is one.
pub open spec fn custom_host(h: Seq<(Seq<char>, Seq<char>)>) -> Option<Seq<char>>
    decreases h.len(),
{
    if h.len() == 0 {
        None
    } else if custom_host(h.drop_last()) is Some {
        custom_host(h.drop_last())
    } else if is_host_header(h.last().0) {
        Some(h.last().1)
    } else {
        None
    }
}

/// The headers other than `host`.
pub open spec fn other_headers(h: Seq<(Seq<char>, Seq<char>)>) -> Seq<(Seq<char>, Seq<char>)>
    decreases h.len(),
{
    if h.len() == 0 {
        Seq::empty()
    } else if is_host_header(h.last().0) {
        other_headers(h.drop_last())
    } else {
        other_headers(h.drop_last()).push(h.last())
    }
}

/// The host a request is for: an explicit `host` header, else the target's.
pub open spec fn effective_host(host: Seq<char>, h: Seq<(Seq<char>, Seq<char>)>) -> Seq<char> {
    match custom_host(h) {
        Some(v) => v,
        None => host,
    }
}

/// The `host` header a request carries: an explicit one replaces the default;
/// HTTP/2 has none, its authority stands in the target.
pub open spec fn host_headers(
    version: HttpVersion,
    tls: bool,
    host: Seq<char>,
    port: u16,
    h: Seq<(Seq<char>, Seq<char>)>,
) -> Seq<(Seq<char>, Seq<char>)> {
    match version {
        HttpVersion::Http1 => seq![
            (
                "host"@,
                match custom_host(h) {
                    Some(v) => bare_host(v),
                    None => wire_authority_text(host, port, tls),
                },
            ),
        ],
        HttpVersion::Http2 => Seq::empty(),
        HttpVersion::Http3 => seq![("host"@, wire_authority_text(effective_host(host, h), port, true))],
    }
}

/// The target of a request: the path, behind the authority from HTTP/2 on. An
/// explicit `host` header is the whole authority of an HTTP/2 request, with the
/// port that it names or none.
pub open spec fn request_uri(version: HttpVersion, host: Seq<char>, port: u16, path: Seq<char>, h: Seq<
    (Seq<char>, Seq<char>),
>) -> Seq<char> {
    match (version, custom_host(h)) {
        (HttpVersion::Http1, _) => path,
        (HttpVersion::Http2, Some(v)) => "https://"@ + uri_authority_text(v) + path,
        _ => "https://"@ + uri_authority_at_text(effective_host(host, h), port) + path,
    }
}

/// The headers of a request: host, user agent, accept, the caller's own and
/// the length of the body.
pub open spec fn request_headers(
    version: HttpVersion,
    tls: bool,
    host: Seq<char>,
    port: u16,
    h: Seq<(Seq<char>, Seq<char>)>,
    body: Option<usize>,
) -> Seq<(Seq<char>, Seq<char>)> {
    let front = host_headers(version, tls, host, port, h).push(("user-agent"@, "ip-tools"@)).push(
        ("accept"@, "*/*"@),
    ) + other_headers(h);
    match body {
        Some(n) => front.push(("content-length"@, dec(n as nat))),
        None => front,
    }
}

/// The value of the first `host` header.
fn find_host(headers: &[(String, String)]) -> (r: Option<String>)
    ensures
        r.deep_view() == custom_host(header_texts(headers@)),
{
    let mut found: Option<String> = None;
    let ghost all = header_texts(headers@);
    for i in 0..headers.len()
        invariant
            all == header_texts(headers@),
            found.deep_view() == custom_host(all.take(i as int)),
    {
        assert(all.take(i as int + 1).drop_last() =~= all.take(i as int));
        assert(all[i as int] == (headers@[i as int].0@, headers@[i as int].1@));
        if found.is_none() && same_ignoring_case(headers[i].0.as_str(), "host") {
            found = Some(headers[i].1.clone());
        }
    }
    assert(all.take(headers@.len() as int) =~= all);
    found
}

/// Build the head of a probe's request. An explicit `host` header replaces the
/// default instead of stacking a second one on top of it, and is
/// bracket-stripped like the default; a body is announced with its length.
pub fn request_head(
    version: HttpVersion,
    tls: bool,
    host: &str,
    port: u16,
    method: &str,
    path: &str,
    headers: &[(String, String)],
    body: Option<usize>,
) -> (r: RequestHead)
    ensures
        r.method@ == method@,
        r.uri@ == request_uri(version, host@, port, path@, header_texts(headers@)),
        r.headers.deep_view() == request_headers(version, tls, host@, port, header_texts(headers@), body),
{
    let ghost all = header_texts(headers@);
    let custom = find_host(headers);
    let effective = match &custom {
        Some(v) => v.as_str(),
        None => host,
    };
    let uri = match (version, &custom) {
        (HttpVersion::Http1, _) => path.to_owned(),
        (HttpVersion::Http2, Some(v)) => {
            let mut uri = "https://".to_owned();
            uri.append(uri_authority(v.as_str()).as_str());
            uri.append(path);
            uri
        },
        _ => {
            let mut uri = "https://".to_owned();
            uri.append(uri_authority_at(effective, port).as_str());
            uri.append(path);
            uri
        },
    };
    let mut out: Vec<(String, String)> = Vec::new();
    assert(out.deep_view() =~= Seq::empty());
    match version {
        HttpVersion::Http1 => {
            let value = match &custom {
                Some(v) => wire_host(v.as_str()),
                None => wire_authority(host, port, tls),
            };
            push_header(&mut out, "host", value);
        },
        HttpVersion::Http2 => {},
        HttpVersion::Http3 => {
            push_header(&mut out, "host", wire_authority(effective, port, true));
        },
    }
    assert(out.deep_view() =~= host_headers(version, tls, host@, port, all));
    push_header(&mut out, "user-agent", "ip-tools".to_owned());
    push_header(&mut out, "accept", "*/*".to_owned());
    let ghost front = out.deep_view();
    assert(front =~= front + other_headers(all.take(0)));
    for i in 0..headers.len()
        invariant
            all == header_texts(headers@),
            out.deep_view() == front + other_headers(all.take(i as int)),
    {
        assert(all.take(i as int + 1).drop_last() =~= all.take(i as int));
        assert(all[i as int] == (headers@[i as int].0@, headers@[i as int].1@));
        if !same_ignoring_case(headers[i].0.as_str(), "host") {
            push_header(&mut out, headers[i].0.as_str(), headers[i].1.clone());
            assert(out.deep_view() =~= front + other_headers(all.take(i as int + 1)));
        }
    }
    assert(all.take(headers@.len() as int) =~= all);
    match body {
        Some(n) => {
            push_header(&mut out, "content-length", dec_text(n as u64));
        },
        None => {},
    }
    RequestHead { method: method.to_owned(), uri, headers: out }
}

/// Append a header.
fn push_header(out: &mut Vec<(String, String)>, name: &str, value: String)
    ensures
        final(out).deep_view() == old(out).deep_view().push((name@, value@)),
{
    let ghost before = out.deep_view();
    out.push((name.to_owned(), value));
    assert(out.deep_view() =~= before.push((name@, value@)));
}

/// A request never carries two `host` headers, whatever headers the caller
/// asked for.
pub proof fn lemma_request_has_one_host(
    version: HttpVersion,
    tls: bool,
    host: Seq<char>,
    port: u16,
    h: Seq<(Seq<char>, Seq<char>)>,
    body: Option<usize>,
    i: int,
    j: int,
)
    requires
        0 <= i < j < request_headers(version, tls, host, port, h, body).len(),
    ensures
        !(is_host_header(request_headers(version, tls, host, port, h, body)[i].0) && is_host_header(
            request_headers(version, tls, host, port, h, body)[j].0,
        )),
{
    let r = request_headers(version, tls, host, port, h, body);
    let n = host_headers(version, tls, host, port, h).len();
    lemma_other_headers(h);
    reveal_strlit("host");
    reveal_strlit("user-agent");
    reveal_strlit("accept");
    reveal_strlit("content-length");
    assert(lower("user-agent"@).len() == 10);
    assert(lower("accept"@).len() == 6);
    assert(lower("content-length"@).len() == 14);
    assert(lower("host"@).len() == 4);
    assert(n <= 1);
    if j < n + 2 {
    } else if j < n + 2 + other_headers(h).len() {
        assert(r[j] == other_headers(h)[j - n - 2]);
    } else {
        assert(r[j].0 == "content-length"@);
    }
}

/// The headers other than `host` hold no `host` header.
proof fn lemma_other_headers(h: Seq<(Seq<char>, Seq<char>)>)
    ensures
        forall|i: int| 0 <= i < other_headers(h).len() ==> !is_host_header((#[trigger] other_headers(h)[i]).0),
    decreases h.len(),
{
    if h.len() > 0 {
        let front = other_headers(h.drop_last());
        lemma_other_headers(h.drop_last());
        assert forall|i: int| 0 <= i < other_headers(h).len() implies !is_host_header(
            (#[trigger] other_headers(h)[i]).0,
        ) by {
            if i < front.len() {
                assert(!is_host_header(front[i].0));
            }
        }
    }
}

// --- steps ----------------------------------------------------------------------------

/// A step of a probe that can go wrong.
#[derive(Debug, Clone, Copy, PartialEq, Eq, Structural)]
pub enum HttpStep {
    Handshake1,
    Build1,
    Request1,
    Body1,
    Handshake2,
    Build2,
    Request2,
    BodySend2,
    BodyFinish2,
    Response2,
    Body2,
    Endpoint3,
    Connect3,
    Handshake3,
    Setup3,
    Build3,
    Request3,
    BodySend3,
    Finish3,
    Response3,
    Body3,
}

/// The failure mode of a step that failed.
pub open spec fn failed_kind(step: HttpStep) -> FailureKind {
    match step {
        HttpStep::Build1 => FailureKind::Protocol,
        HttpStep::Build2 => FailureKind::Protocol,
        HttpStep::Build3 => FailureKind::Protocol,
        HttpStep::Endpoint3 => FailureKind::Other,
        HttpStep::Connect3 => FailureKind::Quic,
        HttpStep::Handshake3 => FailureKind::Quic,
        _ => FailureKind::Http,
    }
}

/// What stands before the cause in the message of a step that failed.
pub open spec fn failed_text(step: HttpStep) -> Seq<char> {
    match step {
        HttpStep::Handshake1 => "HTTP/1.1 handshake failed: "@,
        HttpStep::Build1 => "could not build http request: "@,
        HttpStep::Request1 => "http request failed: "@,
        HttpStep::Body1 => "HTTP/1.1 body failed: "@,
        HttpStep::Handshake2 => "HTTP/2 handshake failed: "@,
        HttpStep::Build2 => "could not build http/2 request: "@,
        HttpStep::Request2 => "http/2 request failed: "@,
        HttpStep::BodySend2 => "http/2 body send failed: "@,
        HttpStep::BodyFinish2 => "http/2 body finish failed: "@,
        HttpStep::Response2 => "http/2 response failed: "@,
        HttpStep::Body2 => "http/2 body failed: "@,
        HttpStep::Endpoint3 => ""@,
        HttpStep::Connect3 => "quic connect failed: "@,
        HttpStep::Handshake3 => "quic handshake failed: "@,
        HttpStep::Setup3 => "http/3 setup failed: "@,
        HttpStep::Build3 => "could not build request: "@,
        HttpStep::Request3 => "http/3 request failed: "@,
        HttpStep::BodySend3 => "http/3 body send failed: "@,
        HttpStep::Finish3 => "http/3 request finish failed: "@,
        HttpStep::Response3 => "http/3 response failed: "@,
        HttpStep::Body3 => "http/3 body failed: "@,
    }
}

/// What stands before the destination in the message of a step that timed
/// out; nothing for a step that is not timed.
pub open spec fn timeout_text(step: HttpStep) -> Seq<char> {
    match step {
        HttpStep::Handshake1 => "http/1.1 handshake to "@,
        HttpStep::Request1 => "http request to "@,
        HttpStep::Handshake2 => "http/2 handshake to "@,
        HttpStep::Response2 => "http/2 request to "@,
        HttpStep::Handshake3 => "quic handshake to "@,
        HttpStep::Setup3 => "http/3 setup to "@,
        HttpStep::Request3 => "http/3 request to "@,
        HttpStep::BodySend3 => "http/3 body send to "@,
        HttpStep::Finish3 => "http/3 request finish to "@,
        HttpStep::Response3 => "http/3 response from "@,
        _ => ""@,
    }
}

/// The error of a step that failed with the message `e`.
pub fn step_failed(step: HttpStep, e: &str) -> (r: ProbeError)
    ensures
        r.kind == failed_kind(step),
        r.message@ == failed_text(step) + e@,
{
    let kind = match step {
        HttpStep::Build1 => FailureKind::Protocol,
        HttpStep::Build2 => FailureKind::Protocol,
        HttpStep::Build3 => FailureKind::Protocol,
        HttpStep::Endpoint3 => FailureKind::Other,
        HttpStep::Connect3 => FailureKind::Quic,
        HttpStep::Handshake3 => FailureKind::Quic,
        _ => FailureKind::Http,
    };
    let prefix = match step {
        HttpStep::Handshake1 => "HTTP/1.1 handshake failed: ",
        HttpStep::Build1 => "could not build http request: ",
        HttpStep::Request1 => "http request failed: ",
        HttpStep::Body1 => "HTTP/1.1 body failed: ",
        HttpStep::Handshake2 => "HTTP/2 handshake failed: ",
        HttpStep::Build2 => "could not build http/2 request: ",
        HttpStep::Request2 => "http/2 request failed: ",
        HttpStep::BodySend2 => "http/2 body send failed: ",
        HttpStep::BodyFinish2 => "http/2 body finish failed: ",
        HttpStep::Response2 => "http/2 response failed: ",
        HttpStep::Body2 => "http/2 body failed: ",
        HttpStep::Endpoint3 => "",
        HttpStep::Connect3 => "quic connect failed: ",
        HttpStep::Handshake3 => "quic handshake failed: ",
        HttpStep::Setup3 => "http/3 setup failed: ",
        HttpStep::Build3 => "could not build request: ",
        HttpStep::Request3 => "http/3 request failed: ",
        HttpStep::BodySend3 => "http/3 body send failed: ",
        HttpStep::Finish3 => "http/3 request finish failed: ",
        HttpStep::Response3 => "http/3 response failed: ",
        HttpStep::Body3 => "http/3 body failed: ",
    };
    let mut message = prefix.to_owned();
    message.append(e);
    ProbeError { kind, message }
}

/// The error of a step that did not finish within `ms` milliseconds.
pub fn step_timed_out(step: HttpStep, destination: SocketAddr, ms: u64) -> (r: ProbeError)
    ensures
        r.kind == FailureKind::Timeout,
        r.message@ == timeout_text(step) + destination.text() + " timed out after "@ + millis(ms),
{
    let prefix = match step {
        HttpStep::Handshake1 => "http/1.1 handshake to ",
        HttpStep::Request1 => "http request to ",
        HttpStep::Handshake2 => "http/2 handshake to ",
        HttpStep::Response2 => "http/2 request to ",
        HttpStep::Handshake3 => "quic handshake to ",
        HttpStep::Setup3 => "http/3 setup to ",
        HttpStep::Request3 => "http/3 request to ",
        HttpStep::BodySend3 => "http/3 body send to ",
        HttpStep::Finish3 => "http/3 request finish to ",
        HttpStep::Response3 => "http/3 response from ",
        _ => "",
    };
    let mut message = prefix.to_owned();
    message.append(destination.to_text().as_str());
    message.append(" timed out after ");
    message.append(millis_text(ms).as_str());
    ProbeError { kind: FailureKind::Timeout, message }
}

/// The error of a cleartext connect that failed.
pub fn connect_failed(destination: SocketAddr, kind: FailureKind, e: &str) -> (r: ProbeError)
    ensures
        r.kind == kind,
        r.message@ == "tcp connect to "@ + destination.text() + " failed: "@ + e@,
{
    let mut message = "tcp connect to ".to_owned();
    message.append(destination.to_text().as_str());
    message.append(" failed: ");
    message.append(e);
    ProbeError { kind, message }
}

/// The error of a cleartext connect that did not finish within `ms`
/// milliseconds.
pub fn connect_timed_out(destination: SocketAddr, ms: u64) -> (r: ProbeError)
    ensures
        r.kind == FailureKind::Timeout,
        r.message@ == "tcp connect to "@ + destination.text() + " timed out after "@ + millis(ms),
{
    let mut message = "tcp connect to ".to_owned();
    message.append(destination.to_text().as_str());
    message.append(" timed out after ");
    message.append(millis_text(ms).as_str());
    ProbeError { kind: FailureKind::Timeout, message }
}

/// The failure mode of a handshake: a rejected certificate is told apart.
pub open spec fn handshake_kind(certificate: bool) -> FailureKind {
    if certificate {
        FailureKind::Certificate
    } else {
        FailureKind::TlsHandshake
    }
}

/// The error of a TLS handshake that failed, over the peer's `certificate` or
/// otherwise.
pub fn handshake_failed(destination: SocketAddr, certificate: bool, e: &str) -> (r: ProbeError)
    ensures
        r.kind == handshake_kind(certificate),
        r.message@ == "tls handshake with "@ + destination.text() + " failed: "@ + e@,
{
    let mut message = "tls handshake with ".to_owned();
    message.append(destination.to_text().as_str());
    message.append(" failed: ");
    message.append(e);
    let kind = if certificate {
        FailureKind::Certificate
    } else {
        FailureKind::TlsHandshake
    };
    ProbeError { kind, message }
}

/// The error of a TLS handshake that did not finish within `ms` milliseconds.
pub fn handshake_timed_out(destination: SocketAddr, ms: u64) -> (r: ProbeError)
    ensures
        r.kind == FailureKind::Timeout,
        r.message@ == "tls handshake with "@ + destination.text() + " timed out after "@ + millis(ms),
{
    let mut message = "tls handshake with ".to_owned();
    message.append(destination.to_text().as_str());
    message.append(" timed out after ");
    message.append(millis_text(ms).as_str());
    ProbeError { kind: FailureKind::Timeout, message }
}

// --- responses ------------------------------------------------------------------------

/// A response header as received: its name and the bytes of its value.
pub type RawHeader = (String, Vec<u8>);

/// Whether a header is the `Location` header.
pub open spec fn is_location(name: Seq<char>) -> bool {
    lower(name) == lower("location"@)
}

/// The headers that can be recorded: those other than `Location` whose value is
/// valid UTF-8.
pub open spec fn recordable(h: Seq<RawHeader>) -> Seq<(Seq<char>, Seq<char>)>
    decreases h.len(),
{
    if h.len() == 0 {
        Seq::empty()
    } else if valid_utf8(h.last().1@) && !is_location(h.last().0@) {
        recordable(h.drop_last()).push((h.last().0@, decode_utf8(h.last().1@)))
    } else {
        recordable(h.drop_last())
    }
}

/// At most the first 24 of some headers.
pub open spec fn first_headers(h: Seq<(Seq<char>, Seq<char>)>) -> Seq<(Seq<char>, Seq<char>)> {
    if h.len() > 24 {
        h.take(24)
    } else {
        h
    }
}

/// Collect the response headers into a bounded (name, value) list. Values that
/// are not valid UTF-8 are skipped; order is preserved, and the `Location` header is
/// recorded separately. The cap applies to what is recorded, not to what is
/// looked at.
pub fn collect_response_headers(headers: &[RawHeader]) -> (out: Vec<(String, String)>)
    ensures
        out.deep_view() == first_headers(recordable(headers@)),
        out@.len() <= 24,
{
    let mut out: Vec<(String, String)> = Vec::new();
    assert(out.deep_view() =~= Seq::empty());
    for i in 0..headers.len()
        invariant
            out.deep_view() == first_headers(recordable(headers@.take(i as int))),
            out@.len() <= 24,
    {
        assert(headers@.take(i as int + 1).drop_last() =~= headers@.take(i as int));
        let ghost done = recordable(headers@.take(i as int));
        let ghost before = out.deep_view();
        if !same_ignoring_case(headers[i].0.as_str(), "location") {
            match utf8_text(headers[i].1.as_slice()) {
                Some(text) => {
                    if out.len() < MAX_RESPONSE_HEADERS {
                        push_header(&mut out, headers[i].0.as_str(), text);
                    } else {
                        assert(done.push((headers@[i as int].0@, text@)).take(24) =~= before);
                    }
                },
                None => {},
            }
        }
    }
    assert(headers@.take(headers@.len() as int) =~= headers@);
    out
}

/// The value of the first `Location` header.
pub open spec fn first_location(h: Seq<RawHeader>) -> Option<Seq<u8>>
    decreases h.len(),
{
    if h.len() == 0 {
        None
    } else if first_location(h.drop_last()) is Some {
        first_location(h.drop_last())
    } else if is_location(h.last().0@) {
        Some(h.last().1@)
    } else {
        None
    }
}

/// The redirect target of a response: the first `Location` header, when it is
/// valid UTF-8.
pub fn response_location(headers: &[RawHeader]) -> (r: Option<String>)
    ensures
        r.deep_view() == (match first_location(headers@) {
            Some(value) => if valid_utf8(value) {
                Some(decode_utf8(value))
            } else {
                None
            },
            None => None,
        }),
{
    for i in 0..headers.len()
        invariant
            first_location(headers@.take(i as int)) is None,
    {
        assert(headers@.take(i as int + 1).drop_last() =~= headers@.take(i as int));
        if same_ignoring_case(headers[i].0.as_str(), "location") {
            proof {
                lemma_first_location(headers@, i as int + 1);
            }
            return utf8_text(headers[i].1.as_slice());
        }
    }
    assert(headers@.take(headers@.len() as int) =~= headers@);
    None
}

/// The first `Location` header of a front part is that of the whole.
proof fn lemma_first_location(h: Seq<RawHeader>, n: int)
    requires
        0 <= n <= h.len(),
        first_location(h.take(n)) is Some,
    ensures
        first_location(h) == first_location(h.take(n)),
    decreases h.len() - n,
{
    if n == h.len() {
        assert(h.take(n) =~= h);
    } else {
        assert(h.take(n + 1).drop_last() =~= h.take(n));
        lemma_first_location(h, n + 1);
    }
}

// --- bodies -----------------------------------------------------------------------------

/// The bounded capture of a response body while it arrives.
///
/// Its view is everything that arrived before the capture ended. How the body
/// was cut into chunks leaves no trace.
pub struct BodyCapture {
    snippet: Vec<u8>,
    full: Vec<u8>,
    keep: bool,
    bytes_read: u64,
    max: u64,
    ended: bool,
    capped: bool,
    arrived: Ghost<Seq<u8>>,
}

/// What happens to a body.
#[derive(Debug)]
pub enum BodyEvent {
    /// A chunk arrived.
    Chunk(Vec<u8>),
    /// The body is complete.
    End,
    /// The deadline passed.
    TimedOut,
}

impl View for BodyCapture {
    type V = Seq<u8>;

    closed spec fn view(&self) -> Seq<u8> {
        self.arrived@
    }
}

impl BodyCapture {
    /// The invariant of a capture: what is kept is the front of what arrived.
    pub closed spec fn wf(self) -> bool {
        let kept = first_bytes_of(self.arrived@, self.max as int);
        &&& self.bytes_read == kept.len()
        &&& self.snippet@ == first_bytes_of(kept, 1024)
        &&& self.full@ == (if self.keep {
            kept
        } else {
            Seq::empty()
        })
        &&& self.capped ==> self.ended && self.bytes_read == self.max
    }

    /// The read cap.
    pub closed spec fn cap(self) -> u64 {
        self.max
    }

    /// Whether a copy of the body is kept.
    pub closed spec fn keeps(self) -> bool {
        self.keep
    }

    /// Whether the body ended, by itself or at the cap.
    pub closed spec fn has_ended(self) -> bool {
        self.ended
    }

    /// Whether the capture stopped at the cap.
    pub closed spec fn is_capped(self) -> bool {
        self.capped
    }

    /// The part of the body that counts: at most the cap.
    pub open spec fn kept(self) -> Seq<u8> {
        first_bytes_of(self@, self.cap() as int)
    }

    /// An empty capture that reads at most `max` bytes and, where `keep` holds,
    /// keeps a copy of them.
    pub fn new(max: u64, keep: bool) -> (r: BodyCapture)
        ensures
            r.wf(),
            r@ == Seq::<u8>::empty(),
            r.cap() == max,
            r.keeps() == keep,
            !r.has_ended(),
            !r.is_capped(),
    {
        let r = BodyCapture {
            snippet: Vec::new(),
            full: Vec::new(),
            keep,
            bytes_read: 0,
            max,
            ended: false,
            capped: false,
            arrived: Ghost(Seq::empty()),
        };
        assert(r.snippet@ =~= first_bytes_of(first_bytes_of(Seq::empty(), max as int), 1024));
        assert(r.full@ =~= Seq::empty());
        r
    }

    /// Take in one event; `true` once nothing more is to be read.
    pub fn on(&mut self, event: BodyEvent) -> (done: bool)
        requires
            old(self).wf(),
        ensures
            final(self).wf(),
            final(self).cap() == old(self).cap(),
            final(self).keeps() == old(self).keeps(),
            match event {
                BodyEvent::Chunk(data) => {
                    &&& final(self)@ == old(self)@ + data@
                    &&& done == (final(self)@.len() >= final(self).cap())
                    &&& final(self).has_ended() == (old(self).has_ended() || done)
                    &&& final(self).is_capped() == (old(self).is_capped() || done)
                },
                BodyEvent::End => {
                    &&& final(self)@ == old(self)@
                    &&& done
                    &&& final(self).has_ended()
                    &&& final(self).is_capped() == old(self).is_capped()
                },
                BodyEvent::TimedOut => {
                    &&& final(self)@ == old(self)@
                    &&& done
                    &&& final(self).has_ended() == old(self).has_ended()
                    &&& final(self).is_capped() == old(self).is_capped()
                },
            },
    {
        match event {
            BodyEvent::Chunk(data) => {
                let ghost before = self.arrived@;
                let ghost kept = first_bytes_of(before, self.max as int);
                let max = self.max;
                let capped = if self.keep {
                    push_bounded_body(
                        &mut self.snippet,
                        Some(&mut self.full),
                        &mut self.bytes_read,
                        max,
                        data.as_slice(),
                    )
                } else {
                    push_bounded_body(&mut self.snippet, None, &mut self.bytes_read, max, data.as_slice())
                };
                self.arrived = Ghost(before + data@);
                proof {
                    let after = first_bytes_of(before + data@, max as int);
                    let budget = max - kept.len();
                    let bounded = first_bytes_of(data@, budget);
                    assert(after =~= kept + bounded);
                    assert(self.snippet@ =~= first_bytes_of(after, 1024));
                    if self.keep {
                        assert(self.full@ =~= after);
                    }
                }
                if capped {
                    self.ended = true;
                    self.capped = true;
                }
                capped
            },
            BodyEvent::End => {
                self.ended = true;
                true
            },
            BodyEvent::TimedOut => true,
        }
    }

    /// The kept copy of the body.
    pub fn full_body(&self) -> (r: &[u8])
        requires
            self.wf(),
        ensures
            r@ == (if self.keeps() {
                self.kept()
            } else {
                Seq::empty()
            }),
    {
        self.full.as_slice()
    }

    /// The number of body bytes read, when the body ended.
    pub fn body_bytes(&self) -> (r: Option<u64>)
        requires
            self.wf(),
        ensures
            r is Some <==> self.has_ended(),
            r matches Some(n) ==> n == self.kept().len(),
    {
        if self.ended {
            Some(self.bytes_read)
        } else {
            None
        }
    }

    /// The snippet of the body as text, with an ellipsis when there is more.
    pub fn snippet_string(&self) -> (r: Option<String>)
        requires
            self.wf(),
        ensures
            r.deep_view() == snippet_text(first_bytes_of(self.kept(), 1024), self.kept().len() > 1024),
    {
        body_snippet_string(self.snippet.as_slice(), self.bytes_read > self.snippet.len() as u64)
    }

    /// Whether the capture stopped at the cap.
    pub fn stopped_at_cap(&self) -> (r: bool)
        ensures
            r == self.is_capped(),
    {
        self.capped
    }
}

/// However a body is cut into chunks, a capture keeps the same bytes of it: at
/// most the cap, and they are its front.
pub proof fn lemma_capture_is_bounded(c: BodyCapture)
    ensures
        c.kept().len() <= c.cap(),
        c.kept() == c@.take(c.kept().len() as int),
{
    assert(c.kept() =~= c@.take(c.kept().len() as int));
}

// --- observations -------------------------------------------------------------------------

impl HttpObservation {
    /// An observation of a probe of which nothing is known yet.
    pub fn base(destination: SocketAddr, host: &str, method: &str, path: &str, protocol: &str) -> (r: HttpObservation)
        ensures
            r.destination == destination,
            r.host@ == host@,
            r.method@ == method@,
            r.path@ == path@,
            r.protocol.deep_view() == Some(protocol@),
            r.tls is None && r.status is None && r.location is None && r.headers@.len() == 0,
            r.body_bytes is None && !r.body_capped && r.body_snippet is None,
            r.latency_ms is None && r.ttfb_ms is None && r.failure is None,
    {
        HttpObservation {
            destination,
            host: host.to_owned(),
            method: method.to_owned(),
            path: path.to_owned(),
            tls: None,
            protocol: Some(protocol.to_owned()),
            status: None,
            location: None,
            headers: Vec::new(),
            body_bytes: None,
            body_capped: false,
            body_snippet: None,
            latency_ms: None,
            ttfb_ms: None,
            failure: None,
        }
    }

    /// The observation of a probe that failed.
    pub fn with_failure(self, failure: ProbeError) -> (r: HttpObservation)
        ensures
            r == (HttpObservation { failure: Some(failure), ..self }),
    {
        HttpObservation { failure: Some(failure), ..self }
    }

    /// The observation of a probe whose response arrived. A body that did not
    /// end leaves its length out.
    pub fn completed(
        self,
        tls: Option<TlsObservation>,
        protocol: String,
        status: u16,
        headers: &[RawHeader],
        capture: &BodyCapture,
        latency_ms: u64,
        ttfb_ms: u64,
    ) -> (r: HttpObservation)
        requires
            capture.wf(),
        ensures
            r.destination == self.destination && r.host == self.host && r.method == self.method && r.path == self.path,
            r.tls == tls,
            r.protocol == Some(protocol),
            r.status == Some(status),
            r.location.deep_view() == (match first_location(headers@) {
                Some(value) => if valid_utf8(value) {
                    Some(decode_utf8(value))
                } else {
                    None
                },
                None => None,
            }),
            r.headers.deep_view() == first_headers(recordable(headers@)),
            r.body_bytes is Some <==> capture.has_ended(),
            r.body_bytes matches Some(n) ==> n == capture.kept().len(),
            r.body_capped == capture.is_capped(),
            r.body_snippet.deep_view() == snippet_text(
                first_bytes_of(capture.kept(), 1024),
                capture.kept().len() > 1024,
            ),
            r.latency_ms == Some(latency_ms),
            r.ttfb_ms == Some(ttfb_ms),
            r.failure == self.failure,
    {
        HttpObservation {
            destination: self.destination,
            host: self.host,
            method: self.method,
            path: self.path,
            tls,
            protocol: Some(protocol),
            status: Some(status),
            location: response_location(headers),
            headers: collect_response_headers(headers),
            body_bytes: capture.body_bytes(),
            body_capped: capture.stopped_at_cap(),
            body_snippet: capture.snippet_string(),
            latency_ms: Some(latency_ms),
            ttfb_ms: Some(ttfb_ms),
            failure: self.failure,
        }
    }
}

/// What an established TLS connection negotiated.
#[derive(Debug)]
pub struct TlsConnection {
    pub version: Option<String>,
    pub cipher: Option<String>,
    pub alpn: Option<String>,
    pub certificate: Option<CertificateSummary>,
    pub latency_ms: u64,
}

/// The [`TlsObservation`] of an established connection, so the bearer HTTP
/// observation carries TLS details.
pub fn build_tls_observation(conn: TlsConnection, destination: SocketAddr, host: &str) -> (r: TlsObservation)
    ensures
        r.destination == destination,
        r.sni@ == host@,
        r.success,
        r.version == conn.version && r.cipher == conn.cipher && r.alpn == conn.alpn,
        r.certificate == conn.certificate,
        r.latency_ms == Some(conn.latency_ms),
        r.failure is None,
{
    TlsObservation {
        destination,
        sni: host.to_owned(),
        success: true,
        version: conn.version,
        cipher: conn.cipher,
        alpn: conn.alpn,
        certificate: conn.certificate,
        latency_ms: Some(conn.latency_ms),
        failure: None,
    }
}

/// The (minimal) TLS/QUIC negotiated parameters of an HTTP/3 connection: QUIC
/// is always TLS 1.3, and only the protocol name is reported.
pub fn quic_tls_summary(alpn: Option<Vec<u8>>, destination: SocketAddr, host: &str) -> (r: TlsObservation)
    ensures
        r.destination == destination,
        r.sni@ == host@,
        r.success,
        r.version.deep_view() == Some("TLSv1.3"@),
        r.cipher is None && r.certificate is None && r.latency_ms is None && r.failure is None,
        r.alpn.deep_view() == (match alpn {
            Some(bytes) => Some(lossy_text(bytes@)),
            None => None,
        }),
{
    TlsObservation {
        destination,
        sni: host.to_owned(),
        success: true,
        version: Some("TLSv1.3".to_owned()),
        cipher: None,
        alpn: match alpn {
            Some(bytes) => Some(lossy(bytes.as_slice())),
            None => None,
        },
        certificate: None,
        latency_ms: None,
        failure: None,
    }
}

// --- laws ---------------------------------------------------------------------------------

/// The caller's headers are all sent, unchanged and in their order, but for those
/// that name the host; and the first of those is the explicit host.
pub proof fn lemma_callers_headers(h: Seq<(Seq<char>, Seq<char>)>)
    ensures
        other_headers(h) == h.filter(|p: (Seq<char>, Seq<char>)| lower(p.0) != "host"@),
        custom_host(h) is None <==> forall|i: int| 0 <= i < h.len() ==> lower((#[trigger] h[i]).0) != "host"@,
        custom_host(h) matches Some(v) ==> exists|i: int|
            0 <= i < h.len() && lower((#[trigger] h[i]).0) == "host"@ && h[i].1 == v && forall|j: int|
                0 <= j < i ==> lower((#[trigger] h[j]).0) != "host"@,
    decreases h.len(),
{
    reveal(Seq::filter);
    reveal_strlit("host");
    assert(lower("host"@) =~= "host"@);
    if h.len() > 0 {
        let front = h.drop_last();
        let last = h.len() - 1;
        lemma_callers_headers(front);
        assert forall|i: int| 0 <= i < last implies front[i] == #[trigger] h[i] by {}
        if custom_host(front) is Some {
            let v = custom_host(front)->0;
            let i = choose|i: int|
                0 <= i < front.len() && lower((#[trigger] front[i]).0) == "host"@ && front[i].1 == v && forall|j: int|
                    0 <= j < i ==> lower((#[trigger] front[j]).0) != "host"@;
            assert(lower(h[i].0) == "host"@ && h[i].1 == v);
            assert forall|j: int| 0 <= j < i implies lower((#[trigger] h[j]).0) != "host"@ by {
                assert(lower(front[j].0) != "host"@);
            }
        } else {
            assert forall|j: int| 0 <= j < last implies lower((#[trigger] h[j]).0) != "host"@ by {
                assert(lower(front[j].0) != "host"@);
            }
            if lower(h[last].0) == "host"@ {
                assert(custom_host(h) == Some(h[last].1));
            }
        }
    }
    assert(other_headers(h) =~= h.filter(|p: (Seq<char>, Seq<char>)| lower(p.0) != "host"@));
}

/// What a request carries: its last header is the length of the body exactly when
/// it has one; before it stand the caller's headers, and before them the name of
/// the program and what it accepts.
pub proof fn lemma_request_parts(
    version: HttpVersion,
    tls: bool,
    host: Seq<char>,
    port: u16,
    h: Seq<(Seq<char>, Seq<char>)>,
    body: Option<usize>,
)
    ensures
        ({
            let r = request_headers(version, tls, host, port, h, body);
            let n = if version == HttpVersion::Http2 {
                0int
            } else {
                1
            };
            let k = other_headers(h).len();
            &&& r.len() == n + 2 + k + (if body is Some {
                1int
            } else {
                0
            })
            &&& r[n] == ("user-agent"@, "ip-tools"@) && r[n + 1] == ("accept"@, "*/*"@)
            &&& r.subrange(n + 2, n + 2 + k) == other_headers(h)
            &&& body matches Some(len) ==> r.last() == ("content-length"@, dec(len as nat))
            &&& version == HttpVersion::Http1 && custom_host(h) is None ==> r[0] == (
                "host"@,
                wire_authority_text(host, port, tls),
            )
            &&& version == HttpVersion::Http1 && custom_host(h) is Some ==> r[0] == ("host"@, bare_host(custom_host(h)->0))
            &&& version == HttpVersion::Http3 && custom_host(h) is None ==> r[0] == (
                "host"@,
                wire_authority_text(host, port, true),
            )
            &&& version == HttpVersion::Http3 && custom_host(h) is Some ==> r[0] == (
                "host"@,
                wire_authority_text(custom_host(h)->0, port, true),
            )
        }),
{
    let r = request_headers(version, tls, host, port, h, body);
    let n = if version == HttpVersion::Http2 {
        0int
    } else {
        1
    };
    let k = other_headers(h).len();
    assert(r.subrange(n + 2, n + 2 + k) =~= other_headers(h));
}

/// The target of a request is the path alone in HTTP/1.1 and stands behind a
/// secure scheme and the authority from HTTP/2 on.
pub proof fn lemma_request_target(
    version: HttpVersion,
    host: Seq<char>,
    port: u16,
    path: Seq<char>,
    h: Seq<(Seq<char>, Seq<char>)>,
)
    ensures
        version == HttpVersion::Http1 ==> request_uri(version, host, port, path, h) == path,
        version != HttpVersion::Http1 && custom_host(h) is None ==> request_uri(version, host, port, path, h)
            == "https://"@ + uri_authority_at_text(host, port) + path,
        version == HttpVersion::Http2 && custom_host(h) is Some ==> request_uri(version, host, port, path, h)
            == "https://"@ + uri_authority_text(custom_host(h)->0) + path,
        version == HttpVersion::Http3 && custom_host(h) is Some ==> request_uri(version, host, port, path, h)
            == "https://"@ + uri_authority_at_text(custom_host(h)->0, port) + path,
{
}

/// A request that cannot be built is a protocol error, a connection that QUIC
/// cannot set up is a QUIC error, and every other step fails in HTTP itself but
/// for the local socket. A rejected certificate is told apart from a handshake
/// that failed otherwise.
pub proof fn lemma_http_failure_modes(step: HttpStep, certificate: bool)
    ensures
        failed_kind(step) == FailureKind::Protocol <==> step is Build1 || step is Build2 || step is Build3,
        failed_kind(step) == FailureKind::Quic <==> step is Connect3 || step is Handshake3,
        failed_kind(step) == FailureKind::Other <==> step is Endpoint3,
        failed_kind(step) == FailureKind::Protocol || failed_kind(step) == FailureKind::Quic || failed_kind(step)
            == FailureKind::Other || failed_kind(step) == FailureKind::Http,
        handshake_kind(certificate) == FailureKind::Certificate <==> certificate,
        handshake_kind(certificate) == FailureKind::TlsHandshake <==> !certificate,
{
}

/// The recorded headers are those of the response that are not its redirect
/// target and whose values are well-formed, in their order with their names and
/// values; the first 24 of them.
pub proof fn lemma_recorded_headers(h: Seq<RawHeader>)
    ensures
        recordable(h) == h.filter(|p: RawHeader| valid_utf8(p.1@) && lower(p.0@) != "location"@).map_values(
            |p: RawHeader| (p.0@, decode_utf8(p.1@)),
        ),
        first_headers(recordable(h)).len() == (if recordable(h).len() > 24 {
            24
        } else {
            recordable(h).len()
        }),
        forall|i: int|
            0 <= i < first_headers(recordable(h)).len() ==> #[trigger] first_headers(recordable(h))[i] == recordable(
                h,
            )[i],
    decreases h.len(),
{
    reveal(Seq::filter);
    reveal_strlit("location");
    assert(lower("location"@) =~= "location"@);
    if h.len() > 0 {
        lemma_recorded_headers(h.drop_last());
    }
    assert(recordable(h) =~= h.filter(|p: RawHeader| valid_utf8(p.1@) && lower(p.0@) != "location"@).map_values(
        |p: RawHeader| (p.0@, decode_utf8(p.1@)),
    ));
}

/// The redirect target is the value of the first header that names one.
pub proof fn lemma_redirect_target(h: Seq<RawHeader>)
    ensures
        first_location(h) is None <==> forall|i: int| 0 <= i < h.len() ==> lower((#[trigger] h[i]).0@) != "location"@,
        first_location(h) matches Some(v) ==> exists|i: int|
            0 <= i < h.len() && lower((#[trigger] h[i]).0@) == "location"@ && h[i].1@ == v && forall|j: int|
                0 <= j < i ==> lower((#[trigger] h[j]).0@) != "location"@,
    decreases h.len(),
{
    reveal_strlit("location");
    assert(lower("location"@) =~= "location"@);
    if h.len() > 0 {
        let front = h.drop_last();
        let last = h.len() - 1;
        lemma_redirect_target(front);
        assert forall|i: int| 0 <= i < last implies front[i] == #[trigger] h[i] by {}
        if first_location(front) is Some {
            let v = first_location(front)->0;
            let i = choose|i: int|
                0 <= i < front.len() && lower((#[trigger] front[i]).0@) == "location"@ && front[i].1@ == v && forall|j: int|
                    0 <= j < i ==> lower((#[trigger] front[j]).0@) != "location"@;
            assert(lower(h[i].0@) == "location"@ && h[i].1@ == v);
            assert forall|j: int| 0 <= j < i implies lower((#[trigger] h[j]).0@) != "location"@ by {
                assert(lower(front[j].0@) != "location"@);
            }
        } else {
            assert forall|j: int| 0 <= j < last implies lower((#[trigger] h[j]).0@) != "location"@ by {
                assert(lower(front[j].0@) != "location"@);
            }
            if lower(h[last].0@) == "location"@ {
                assert(first_location(h) == Some(h[last].1@));
            }
        }
    }
}

} // verus!
