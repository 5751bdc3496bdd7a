//! Shared helpers for the HTTP-family probes (HTTP/1.1, HTTP/2, HTTP/3).

use crate::model::{FailureKind, ProbeError};
use crate::net::{parse_ip, parse_ip_chars, IpAddr};
use crate::text::{chars_of, dec, lossy, lossy_text, lower, push_dec, slice_of, string_of};
use vstd::prelude::*;

verus! {

/// Cap on the response body read from the server, to bound resource use.
pub const MAX_BODY_BYTES: u64 = 1048576;

/// Cap on the response-body text snippet kept in each observation, so a
/// hostile or binary body cannot balloon the probe's memory or dump unbounded
/// content into a report.
pub const BODY_SNIPPET_BYTES: usize = 1024;

/// Cap on the number of response headers recorded per observation, so a
/// hostile or chatty server cannot balloon the probe's memory.
pub const MAX_RESPONSE_HEADERS: usize = 24;

/// Scheme default ports: the port omitted from a wire authority is 443 for
/// HTTPS and 80 for HTTP (RFC 7230 §5.4).
pub const HTTPS_DEFAULT_PORT: u16 = 443;

/// The default port of cleartext HTTP.
pub const HTTP_DEFAULT_PORT: u16 = 80;

/// The head of a request: method, target and headers, in order.
#[derive(Debug, PartialEq, Eq)]
pub struct RequestHead {
    pub method: String,
    pub uri: String,
    pub headers: Vec<(String, String)>,
}

/// Build a probe error describing a failed HTTP-layer step.
pub fn http_error(step: &str, e: &str) -> (r: ProbeError)
    ensures
        r.kind == FailureKind::Http,
        r.message@ == step@ + " failed: "@ + e@,
{
    let mut message = step.to_owned();
    message.append(" failed: ");
    message.append(e);
    ProbeError { kind: FailureKind::Http, message }
}

// --- authorities ----------------------------------------------------------------------

/// `s` without the opening brackets at its front.
pub open spec fn unopened(s: Seq<char>) -> Seq<char>
    decreases s.len(),
{
    if s.len() > 0 && s[0] == '[' {
        unopened(s.skip(1))
    } else {
        s
    }
}

/// `s` without the closing brackets at its back.
pub open spec fn unclosed(s: Seq<char>) -> Seq<char>
    decreases s.len(),
{
    if s.len() > 0 && s.last() == ']' {
        unclosed(s.drop_last())
    } else {
        s
    }
}

/// A host without the brackets around it.
pub open spec fn bare_host(host: Seq<char>) -> Seq<char> {
    unclosed(unopened(host))
}

/// Folding keeps the brackets at the front apart.
proof fn lemma_unopened_ignores_case(s: Seq<char>)
    ensures
        unopened(lower(s)) == lower(unopened(s)),
    decreases s.len(),
{
    if s.len() > 0 && s[0] == '[' {
        lemma_unopened_ignores_case(s.skip(1));
        assert(lower(s).skip(1) =~= lower(s.skip(1)));
    }
}

/// Folding keeps the brackets at the back apart.
proof fn lemma_unclosed_ignores_case(s: Seq<char>)
    ensures
        unclosed(lower(s)) == lower(unclosed(s)),
    decreases s.len(),
{
    if s.len() > 0 && s.last() == ']' {
        lemma_unclosed_ignores_case(s.drop_last());
        assert(lower(s).drop_last() =~= lower(s.drop_last()));
    }
}

/// Folding a host and removing its brackets can be swapped.
pub proof fn lemma_bare_host_ignores_case(host: Seq<char>)
    ensures
        bare_host(lower(host)) == lower(bare_host(host)),
{
    lemma_unopened_ignores_case(host);
    lemma_unclosed_ignores_case(unopened(host));
}

/// A closing bracket more at the back leaves nothing behind.
proof fn lemma_unopened_with_close(s: Seq<char>)
    ensures
        unclosed(unopened(s + seq![']'])) == unclosed(unopened(s)),
    decreases s.len(),
{
    let t = s + seq![']'];
    if s.len() > 0 && s[0] == '[' {
        lemma_unopened_with_close(s.skip(1));
        assert(t.skip(1) =~= s.skip(1) + seq![']']);
    } else {
        assert(t.drop_last() =~= s);
    }
}

/// Brackets around a host change nothing once all are removed.
pub proof fn lemma_bare_host_ignores_brackets(host: Seq<char>)
    ensures
        bare_host(seq!['['] + host + seq![']']) == bare_host(host),
{
    let all = seq!['['] + host + seq![']'];
    assert(all.skip(1) =~= host + seq![']']);
    lemma_unopened_with_close(host);
}

/// Remove the brackets around a host.
pub fn bare_chars(host: &str) -> (out: Vec<char>)
    ensures
        out@ == bare_host(host@),
{
    let chars = chars_of(host);
    let s = chars.as_slice();
    let mut from: usize = 0;
    assert(s@.skip(0) =~= s@);
    while from < s.len() && s[from] == '['
        invariant
            from <= s.len(),
            unopened(s@.skip(from as int)) == unopened(s@),
        decreases s.len() - from,
    {
        assert(s@.skip(from as int).skip(1) =~= s@.skip(from as int + 1));
        from = from + 1;
    }
    let ghost front = s@.skip(from as int);
    let mut to: usize = s.len();
    assert(s@.subrange(from as int, to as int) =~= front);
    while to > from && s[to - 1] == ']'
        invariant
            from <= to <= s.len(),
            unclosed(s@.subrange(from as int, to as int)) == unclosed(front),
        decreases to,
    {
        assert(s@.subrange(from as int, to as int).drop_last() =~= s@.subrange(from as int, to - 1));
        to = to - 1;
    }
    slice_of(s, from, to)
}

/// The wire-presented host: a bracketed IPv6-literal target keeps its brackets
/// on the host string, but the `Host` header, the `:authority` value and a
/// TLS/QUIC server name must not carry them.
pub fn wire_host(host: &str) -> (out: String)
    ensures
        out@ == bare_host(host@),
{
    string_of(bare_chars(host).as_slice())
}

/// The URI-authority form of a host.
pub open spec fn uri_authority_text(host: Seq<char>) -> Seq<char> {
    match parse_ip(bare_host(host)) {
        Some(IpAddr::V6(_)) => "["@ + bare_host(host) + "]"@,
        _ => bare_host(host),
    }
}

/// The URI-authority form of a wire host: an IPv6 literal must be bracketed
/// (RFC 3986 §3.2.2), while hostnames and IPv4 pass through unaltered.
pub fn uri_authority(host: &str) -> (out: String)
    ensures
        out@ == uri_authority_text(host@),
{
    let bare = bare_chars(host);
    let text = string_of(bare.as_slice());
    match parse_ip_chars(bare.as_slice()) {
        Some(IpAddr::V6(_)) => {
            let mut out = "[".to_owned();
            out.append(text.as_str());
            out.append("]");
            out
        },
        _ => text,
    }
}

/// Whether a port is named in an authority: it is set and not the scheme's
/// default.
pub open spec fn names_port(port: u16, tls: bool) -> bool {
    port != 0 && port != (if tls {
        443u16
    } else {
        80u16
    })
}

/// The wire authority of a host at a port.
pub open spec fn wire_authority_text(host: Seq<char>, port: u16, tls: bool) -> Seq<char> {
    if names_port(port, tls) {
        bare_host(host) + ":"@ + dec(port as nat)
    } else {
        bare_host(host)
    }
}

/// The wire `Host` header / `:authority` value for a target probed at `port`:
/// the port is appended when it is not the scheme default, because an origin
/// server doing host-based virtual hosting keys on host and port. `tls`
/// selects the scheme (443 vs 80). Brackets are stripped from an IPv6 literal;
/// `port == 0` (unset) is never named.
pub fn wire_authority(host: &str, port: u16, tls: bool) -> (out: String)
    ensures
        out@ == wire_authority_text(host@, port, tls),
{
    let mut out = wire_host(host);
    let default: u16 = if tls {
        HTTPS_DEFAULT_PORT
    } else {
        HTTP_DEFAULT_PORT
    };
    if port != 0 && port != default {
        out.append(":");
        push_dec(&mut out, port as u64);
    }
    out
}

/// The URI authority of a host at a port.
pub open spec fn uri_authority_at_text(host: Seq<char>, port: u16) -> Seq<char> {
    if names_port(port, true) {
        uri_authority_text(host) + ":"@ + dec(port as nat)
    } else {
        uri_authority_text(host)
    }
}

/// The URI-authority form of a wire host at a destination port, for
/// `https://host[:port]/path`: the IPv6 literal is re-bracketed and the port
/// is appended when it is not the HTTPS default 443.
pub fn uri_authority_at(host: &str, port: u16) -> (out: String)
    ensures
        out@ == uri_authority_at_text(host@, port),
{
    let mut out = uri_authority(host);
    if port != 0 && port != HTTPS_DEFAULT_PORT {
        out.append(":");
        push_dec(&mut out, port as u64);
    }
    out
}

/// What is left without opening brackets does not begin with one.
proof fn lemma_unopened(s: Seq<char>)
    ensures
        unopened(s).len() == 0 || unopened(s)[0] != '[',
        unopened(s).len() <= s.len(),
    decreases s.len(),
{
    if s.len() > 0 && s[0] == '[' {
        lemma_unopened(s.skip(1));
    }
}

/// What is left without closing brackets does not end with one, and keeps its
/// beginning.
proof fn lemma_unclosed(s: Seq<char>)
    ensures
        unclosed(s).len() == 0 || unclosed(s).last() != ']',
        unclosed(s).len() <= s.len(),
        unclosed(s).len() > 0 ==> unclosed(s)[0] == s[0],
    decreases s.len(),
{
    if s.len() > 0 && s.last() == ']' {
        lemma_unclosed(s.drop_last());
    }
}

/// Removing the brackets around a host twice is removing them once.
pub proof fn lemma_wire_host_idempotent(host: Seq<char>)
    ensures
        bare_host(bare_host(host)) == bare_host(host),
{
    lemma_unopened(host);
    lemma_unclosed(unopened(host));
}

// --- bodies -----------------------------------------------------------------------------

/// At most the first `n` of some bytes.
pub open spec fn first_bytes_of(data: Seq<u8>, n: int) -> Seq<u8> {
    if n < 0 {
        Seq::empty()
    } else if n < data.len() {
        data.take(n)
    } else {
        data
    }
}

/// Append the first `n` bytes of `data`.
fn push_front(out: &mut Vec<u8>, data: &[u8], n: usize)
    requires
        n <= data@.len(),
    ensures
        final(out)@ == old(out)@ + data@.take(n as int),
{
    let ghost start = out@;
    for i in 0..n
        invariant
            n <= data@.len(),
            out@ == start + data@.take(i as int),
    {
        out.push(data[i]);
        assert(out@ =~= start + data@.take(i as int + 1));
    }
}

/// Append up to [`BODY_SNIPPET_BYTES`] of `data` to the running snippet,
/// stopping once the cap is reached.
pub fn push_body_snippet(snippet: &mut Vec<u8>, data: &[u8])
    ensures
        final(snippet)@ == old(snippet)@ + first_bytes_of(data@, 1024 - old(snippet)@.len()),
{
    if snippet.len() >= BODY_SNIPPET_BYTES {
        assert(snippet@ =~= snippet@ + first_bytes_of(data@, 1024 - snippet@.len()));
        return ;
    }
    let room: usize = BODY_SNIPPET_BYTES - snippet.len();
    let take: usize = if room < data.len() {
        room
    } else {
        data.len()
    };
    push_front(snippet, data, take);
    assert(data@.take(data@.len() as int) =~= data@);
}

/// Accumulate one response-body chunk, honoring the read cap as a strict
/// bound: the chunk is truncated to the remaining budget before the snippet
/// (and the retained copy of the whole body, when one is wanted) is extended.
/// Returns `true` once the cap is reached.
pub fn push_bounded_body(
    snippet: &mut Vec<u8>,
    full_body: Option<&mut Vec<u8>>,
    bytes_read: &mut u64,
    max_body_bytes: u64,
    data: &[u8],
) -> (capped: bool)
    ensures
        ({
            let budget = if max_body_bytes >= *old(bytes_read) {
                max_body_bytes - *old(bytes_read)
            } else {
                0
            };
            let bounded = first_bytes_of(data@, budget);
            &&& final(snippet)@ == old(snippet)@ + first_bytes_of(bounded, 1024 - old(snippet)@.len())
            &&& *final(bytes_read) == *old(bytes_read) + bounded.len()
            &&& full_body matches Some(body) ==> final(body)@ == body@ + bounded
        }),
        capped == (*final(bytes_read) >= max_body_bytes),
        *old(bytes_read) <= max_body_bytes ==> *final(bytes_read) <= max_body_bytes,
        old(snippet)@.len() <= 1024 ==> final(snippet)@.len() <= 1024,
{
    let remaining: u64 = if max_body_bytes >= *bytes_read {
        max_body_bytes - *bytes_read
    } else {
        0
    };
    let take: usize = if (data.len() as u64) < remaining {
        data.len()
    } else {
        remaining as usize
    };
    let bounded = vstd::slice::slice_subrange(data, 0, take);
    assert(bounded@ =~= first_bytes_of(data@, remaining as int));
    push_body_snippet(snippet, bounded);
    *bytes_read = *bytes_read + take as u64;
    match full_body {
        Some(body) => {
            push_front(body, bounded, bounded.len());
            assert(bounded@.take(bounded@.len() as int) =~= bounded@);
        },
        None => {},
    }
    *bytes_read >= max_body_bytes
}

/// The snippet text of captured bytes.
pub open spec fn snippet_text(snippet: Seq<u8>, truncated: bool) -> Option<Seq<char>> {
    if snippet.len() == 0 {
        None
    } else if truncated {
        Some(lossy_text(snippet).push('…'))
    } else {
        Some(lossy_text(snippet))
    }
}

/// Build the lossy-UTF8 text snippet from the captured bytes. Returns `None`
/// when nothing was captured; appends `…` when the body had more content than
/// the snippet cap (`truncated`).
pub fn body_snippet_string(snippet: &[u8], truncated: bool) -> (r: Option<String>)
    ensures
        r.deep_view() == snippet_text(snippet@, truncated),
{
    if snippet.len() == 0 {
        return None;
    }
    let mut text = lossy(snippet);
    if truncated {
        text.push('…');
    }
    Some(text)
}

// --- laws -------------------------------------------------------------------------------

/// The brackets around a host are dropped and nothing else: a host that neither
/// starts nor ends with a bracket stays as it is, alone or in brackets.
pub proof fn lemma_bare_host_drops_brackets_only(host: Seq<char>)
    requires
        host.len() > 0,
        host[0] != '[',
        host.last() != ']',
    ensures
        bare_host(host) == host,
        bare_host(seq!['['] + host + seq![']']) == host,
{
    lemma_bare_host_ignores_brackets(host);
}

/// An authority names the port exactly when it is set and is not the one that
/// the scheme implies: 443 with TLS, 80 without.
pub proof fn lemma_authority_names_unusual_ports(host: Seq<char>, port: u16)
    ensures
        wire_authority_text(host, port, true) == (if port == 0 || port == 443 {
            bare_host(host)
        } else {
            bare_host(host) + ":"@ + dec(port as nat)
        }),
        wire_authority_text(host, port, false) == (if port == 0 || port == 80 {
            bare_host(host)
        } else {
            bare_host(host) + ":"@ + dec(port as nat)
        }),
        uri_authority_at_text(host, port) == (if port == 0 || port == 443 {
            uri_authority_text(host)
        } else {
            uri_authority_text(host) + ":"@ + dec(port as nat)
        }),
        parse_ip(bare_host(host)) matches Some(ip) && ip is V6 ==> uri_authority_text(host) == "["@ + bare_host(host)
            + "]"@,
        parse_ip(bare_host(host)) is None ==> uri_authority_text(host) == bare_host(host),
{
}

/// The first bytes of some are a front of them, as many as there are up to the
/// number asked for.
pub proof fn lemma_first_bytes(data: Seq<u8>, n: nat)
    ensures
        first_bytes_of(data, n as int).len() == (if n < data.len() {
            n
        } else {
            data.len()
        }),
        forall|i: int| 0 <= i < first_bytes_of(data, n as int).len() ==> #[trigger] first_bytes_of(data, n as int)[i]
            == data[i],
{
}

/// There is a snippet exactly when something was captured; it is the text of the
/// captured bytes, with an ellipsis behind it exactly when there was more.
pub proof fn lemma_snippet(snippet: Seq<u8>, truncated: bool)
    ensures
        snippet_text(snippet, truncated) is None <==> snippet.len() == 0,
        snippet.len() > 0 && !truncated ==> snippet_text(snippet, truncated)->0 == lossy_text(snippet),
        snippet.len() > 0 && truncated ==> snippet_text(snippet, truncated)->0.drop_last() == lossy_text(snippet)
            && snippet_text(snippet, truncated)->0.last() == '…',
{
    if snippet.len() > 0 && truncated {
        assert(lossy_text(snippet).push('…').drop_last() =~= lossy_text(snippet));
    }
}

} // verus!
